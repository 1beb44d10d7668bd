//! The bytes of a stored payload: a JSON array in which a buffer is written
//! `{"Buffer":[1,2,3]}` and a single byte `{"Bit":7}`, without white space.

use vstd::prelude::*;

verus! {

/// A stored value as a contract sees it.
pub ghost enum Payload {
    Buffer(Seq<u8>),
    Bit(u8),
}

/// The bytes `{"Buffer":` that open a buffer.
pub open spec fn buffer_open() -> Seq<u8> {
    seq![123u8, 34u8, 66u8, 117u8, 102u8, 102u8, 101u8, 114u8, 34u8, 58u8]
}

/// The bytes `{"Bit":` that open a single byte.
pub open spec fn bit_open() -> Seq<u8> {
    seq![123u8, 34u8, 66u8, 105u8, 116u8, 34u8, 58u8]
}

/// Whether a byte is a decimal digit.
pub open spec fn is_digit(b: u8) -> bool {
    48 <= b <= 57
}

/// A number below 256 in decimal digits, without leading zeros.
pub open spec fn encode_byte(b: u8) -> Seq<u8> {
    if b < 10 {
        seq![(48 + b) as u8]
    } else if b < 100 {
        seq![(48 + b / 10) as u8, (48 + b % 10) as u8]
    } else {
        seq![(48 + b / 100) as u8, (48 + (b / 10) % 10) as u8, (48 + b % 10) as u8]
    }
}

/// What follows in an array of numbers once the elements before `i` are
/// written: a comma and a number for each element left, then `]`.
pub open spec fn encode_bytes_from(bytes: Seq<u8>, i: int) -> Seq<u8>
    decreases bytes.len() - i,
{
    if i >= bytes.len() || i < 0 {
        seq![93u8]
    } else {
        seq![44u8] + encode_byte(bytes[i]) + encode_bytes_from(bytes, i + 1)
    }
}

/// An array of numbers: `[]`, or `[` and the numbers with commas between
/// them and `]`.
pub open spec fn encode_byte_array(bytes: Seq<u8>) -> Seq<u8> {
    if bytes.len() == 0 {
        seq![91u8, 93u8]
    } else {
        seq![91u8] + encode_byte(bytes[0]) + encode_bytes_from(bytes, 1)
    }
}

/// One stored value, under the name of its kind.
pub open spec fn encode_payload(p: Payload) -> Seq<u8> {
    match p {
        Payload::Buffer(bytes) => buffer_open() + encode_byte_array(bytes) + seq![125u8],
        Payload::Bit(b) => bit_open() + encode_byte(b) + seq![125u8],
    }
}

/// What follows in a list of values once the values before `i` are written.
pub open spec fn encode_payloads_from(items: Seq<Payload>, i: int) -> Seq<u8>
    decreases items.len() - i,
{
    if i >= items.len() || i < 0 {
        seq![93u8]
    } else {
        seq![44u8] + encode_payload(items[i]) + encode_payloads_from(items, i + 1)
    }
}

/// The bytes that a list of stored values is written as.
pub open spec fn encode_payloads(items: Seq<Payload>) -> Seq<u8> {
    if items.len() == 0 {
        seq![91u8, 93u8]
    } else {
        seq![91u8] + encode_payload(items[0]) + encode_payloads_from(items, 1)
    }
}

/// The bytes `text` stand in `data` from `pos` on.
pub open spec fn at(data: Seq<u8>, pos: int, text: Seq<u8>) -> bool {
    &&& 0 <= pos
    &&& pos + text.len() <= data.len()
    &&& data.subrange(pos, pos + text.len()) == text
}

/// The number that starts at `pos`, and the place behind it. At most three
/// digits are read, and a zero is read alone.
pub open spec fn parse_byte(data: Seq<u8>, pos: int) -> Option<(u8, int)> {
    if !(0 <= pos < data.len()) || !is_digit(data[pos]) {
        None
    } else {
        let a = data[pos] - 48;
        if a != 0 && pos + 1 < data.len() && is_digit(data[pos + 1]) {
            let b = data[pos + 1] - 48;
            if pos + 2 < data.len() && is_digit(data[pos + 2]) {
                let c = data[pos + 2] - 48;
                let value = a * 100 + b * 10 + c;
                if value > 255 {
                    None
                } else {
                    Some((value as u8, pos + 3))
                }
            } else {
                Some(((a * 10 + b) as u8, pos + 2))
            }
        } else {
            Some((a as u8, pos + 1))
        }
    }
}

/// The rest of an array of numbers from `pos` on, added to the numbers in
/// `acc`, and the place behind its `]`.
pub open spec fn parse_bytes_rest(data: Seq<u8>, pos: int, acc: Seq<u8>) -> Option<(Seq<u8>, int)>
    decreases data.len() - pos,
{
    if !(0 <= pos < data.len()) {
        None
    } else if data[pos] == 93u8 {
        Some((acc, pos + 1))
    } else if data[pos] == 44u8 {
        match parse_byte(data, pos + 1) {
            Some((b, next)) => if next > pos {
                parse_bytes_rest(data, next, acc.push(b))
            } else {
                None
            },
            None => None,
        }
    } else {
        None
    }
}

/// The array of numbers that starts at `pos`, and the place behind it.
pub open spec fn parse_byte_array(data: Seq<u8>, pos: int) -> Option<(Seq<u8>, int)> {
    if !(0 <= pos < data.len()) || data[pos] != 91u8 {
        None
    } else if pos + 1 < data.len() && data[pos + 1] == 93u8 {
        Some((Seq::empty(), pos + 2))
    } else {
        match parse_byte(data, pos + 1) {
            Some((b, next)) => parse_bytes_rest(data, next, seq![b]),
            None => None,
        }
    }
}

/// The stored value that starts at `pos`, and the place behind it.
pub open spec fn parse_payload(data: Seq<u8>, pos: int) -> Option<(Payload, int)> {
    if at(data, pos, buffer_open()) {
        match parse_byte_array(data, pos + 10) {
            Some((bytes, next)) => if 0 <= next < data.len() && data[next] == 125u8 {
                Some((Payload::Buffer(bytes), next + 1))
            } else {
                None
            },
            None => None,
        }
    } else if at(data, pos, bit_open()) {
        match parse_byte(data, pos + 7) {
            Some((b, next)) => if 0 <= next < data.len() && data[next] == 125u8 {
                Some((Payload::Bit(b), next + 1))
            } else {
                None
            },
            None => None,
        }
    } else {
        None
    }
}

/// The rest of a list of values from `pos` on, added to the values in `acc`,
/// and the place behind its `]`.
pub open spec fn parse_payloads_rest(data: Seq<u8>, pos: int, acc: Seq<Payload>) -> Option<
    (Seq<Payload>, int),
>
    decreases data.len() - pos,
{
    if !(0 <= pos < data.len()) {
        None
    } else if data[pos] == 93u8 {
        Some((acc, pos + 1))
    } else if data[pos] == 44u8 {
        match parse_payload(data, pos + 1) {
            Some((p, next)) => if next > pos {
                parse_payloads_rest(data, next, acc.push(p))
            } else {
                None
            },
            None => None,
        }
    } else {
        None
    }
}

/// The list of stored values that `data` is, if it is one: a list as
/// `encode_payloads` writes it, and nothing behind it.
pub open spec fn decode_payloads(data: Seq<u8>) -> Option<Seq<Payload>> {
    if data.len() == 0 || data[0] != 91u8 {
        None
    } else {
        let parsed = if 1 < data.len() && data[1] == 93u8 {
            Some((Seq::<Payload>::empty(), 2int))
        } else {
            match parse_payload(data, 1) {
                Some((p, next)) => parse_payloads_rest(data, next, seq![p]),
                None => None,
            }
        };
        match parsed {
            Some((items, end)) => if end == data.len() {
                Some(items)
            } else {
                None
            },
            None => None,
        }
    }
}

/// Where two texts stand one behind the other, each stands at its place.
proof fn lemma_at_split(data: Seq<u8>, pos: int, first: Seq<u8>, second: Seq<u8>)
    requires
        at(data, pos, first + second),
    ensures
        at(data, pos, first),
        at(data, pos + first.len(), second),
{
    let whole = first + second;
    assert(data.subrange(pos, pos + first.len()) =~= whole.subrange(0, first.len() as int));
    assert(whole.subrange(0, first.len() as int) =~= first);
    assert(data.subrange(pos + first.len(), pos + first.len() + second.len())
        =~= whole.subrange(first.len() as int, whole.len() as int));
    assert(whole.subrange(first.len() as int, whole.len() as int) =~= second);
}

/// A text that stands at a place gives the bytes there.
proof fn lemma_at_index(data: Seq<u8>, pos: int, text: Seq<u8>, i: int)
    requires
        at(data, pos, text),
        0 <= i < text.len(),
    ensures
        data[pos + i] == text[i],
{
    assert(data.subrange(pos, pos + text.len())[i] == data[pos + i]);
}

/// A written number is read back, where no digit follows it.
proof fn lemma_parse_byte(data: Seq<u8>, pos: int, b: u8)
    requires
        at(data, pos, encode_byte(b)),
        pos + encode_byte(b).len() < data.len() ==> !is_digit(
            data[pos + encode_byte(b).len()],
        ),
    ensures
        parse_byte(data, pos) == Some((b, pos + encode_byte(b).len())),
        1 <= encode_byte(b).len() <= 3,
{
    let text = encode_byte(b);
    lemma_at_index(data, pos, text, 0);
    if b >= 10 {
        lemma_at_index(data, pos, text, 1);
    }
    if b >= 100 {
        lemma_at_index(data, pos, text, 2);
    }
}

/// The rest of a written array of numbers starts with a comma or `]`.
proof fn lemma_bytes_from_head(bytes: Seq<u8>, i: int)
    ensures
        encode_bytes_from(bytes, i).len() >= 1,
        !is_digit(encode_bytes_from(bytes, i)[0]),
{
}

/// The rest of a written array of numbers is read back.
proof fn lemma_parse_bytes_rest(data: Seq<u8>, pos: int, bytes: Seq<u8>, i: int)
    requires
        0 <= i <= bytes.len(),
        at(data, pos, encode_bytes_from(bytes, i)),
    ensures
        parse_bytes_rest(data, pos, bytes.take(i)) == Some(
            (bytes, pos + encode_bytes_from(bytes, i).len()),
        ),
    decreases bytes.len() - i,
{
    let text = encode_bytes_from(bytes, i);
    lemma_at_index(data, pos, text, 0);
    if i == bytes.len() {
        assert(bytes.take(i) =~= bytes);
    } else {
        let number = encode_byte(bytes[i]);
        let rest = encode_bytes_from(bytes, i + 1);
        assert(text == seq![44u8] + number + rest);
        assert(text =~= seq![44u8] + (number + rest));
        lemma_at_split(data, pos, seq![44u8], number + rest);
        lemma_at_split(data, pos + 1, number, rest);
        lemma_bytes_from_head(bytes, i + 1);
        lemma_at_index(data, pos + 1 + number.len(), rest, 0);
        lemma_parse_byte(data, pos + 1, bytes[i]);
        lemma_parse_bytes_rest(data, pos + 1 + number.len(), bytes, i + 1);
        assert(bytes.take(i).push(bytes[i]) =~= bytes.take(i + 1));
    }
}

/// A written array of numbers is read back.
proof fn lemma_parse_byte_array(data: Seq<u8>, pos: int, bytes: Seq<u8>)
    requires
        at(data, pos, encode_byte_array(bytes)),
    ensures
        parse_byte_array(data, pos) == Some((bytes, pos + encode_byte_array(bytes).len())),
{
    let text = encode_byte_array(bytes);
    lemma_at_index(data, pos, text, 0);
    if bytes.len() == 0 {
        lemma_at_index(data, pos, text, 1);
        assert(bytes =~= Seq::<u8>::empty());
    } else {
        let number = encode_byte(bytes[0]);
        let rest = encode_bytes_from(bytes, 1);
        assert(text =~= seq![91u8] + (number + rest));
        lemma_at_split(data, pos, seq![91u8], number + rest);
        lemma_at_split(data, pos + 1, number, rest);
        lemma_bytes_from_head(bytes, 1);
        lemma_at_index(data, pos + 1 + number.len(), rest, 0);
        lemma_parse_byte(data, pos + 1, bytes[0]);
        lemma_at_index(data, pos + 1, number, 0);
        lemma_parse_bytes_rest(data, pos + 1 + number.len(), bytes, 1);
        assert(bytes.take(1) =~= seq![bytes[0]]);
    }
}

/// A written value is read back.
proof fn lemma_parse_payload(data: Seq<u8>, pos: int, p: Payload)
    requires
        at(data, pos, encode_payload(p)),
    ensures
        parse_payload(data, pos) == Some((p, pos + encode_payload(p).len())),
        encode_payload(p).len() >= 1,
{
    let text = encode_payload(p);
    match p {
        Payload::Buffer(bytes) => {
            let array = encode_byte_array(bytes);
            assert(text =~= buffer_open() + (array + seq![125u8]));
            lemma_at_split(data, pos, buffer_open(), array + seq![125u8]);
            lemma_at_split(data, pos + 10, array, seq![125u8]);
            lemma_at_index(data, pos + 10 + array.len(), seq![125u8], 0);
            lemma_parse_byte_array(data, pos + 10, bytes);
        },
        Payload::Bit(b) => {
            let number = encode_byte(b);
            assert(text =~= bit_open() + (number + seq![125u8]));
            lemma_at_split(data, pos, bit_open(), number + seq![125u8]);
            lemma_at_split(data, pos + 7, number, seq![125u8]);
            lemma_at_index(data, pos + 7 + number.len(), seq![125u8], 0);
            lemma_parse_byte(data, pos + 7, b);
            lemma_at_index(data, pos, bit_open(), 3);
            lemma_at_index(data, pos, text, 3);
            assert(!at(data, pos, buffer_open())) by {
                if at(data, pos, buffer_open()) {
                    lemma_at_index(data, pos, buffer_open(), 3);
                }
            }
        },
    }
}

/// The rest of a written list of values is read back.
proof fn lemma_parse_payloads_rest(data: Seq<u8>, pos: int, items: Seq<Payload>, i: int)
    requires
        0 <= i <= items.len(),
        at(data, pos, encode_payloads_from(items, i)),
    ensures
        parse_payloads_rest(data, pos, items.take(i)) == Some(
            (items, pos + encode_payloads_from(items, i).len()),
        ),
    decreases items.len() - i,
{
    let text = encode_payloads_from(items, i);
    lemma_at_index(data, pos, text, 0);
    if i == items.len() {
        assert(items.take(i) =~= items);
    } else {
        let value = encode_payload(items[i]);
        let rest = encode_payloads_from(items, i + 1);
        assert(text =~= seq![44u8] + (value + rest));
        lemma_at_split(data, pos, seq![44u8], value + rest);
        lemma_at_split(data, pos + 1, value, rest);
        lemma_parse_payload(data, pos + 1, items[i]);
        lemma_parse_payloads_rest(data, pos + 1 + value.len(), items, i + 1);
        assert(items.take(i).push(items[i]) =~= items.take(i + 1));
    }
}

/// A written value starts with `{`.
proof fn lemma_payload_head(p: Payload)
    ensures
        encode_payload(p).len() >= 1,
        encode_payload(p)[0] == 123u8,
{
    match p {
        Payload::Buffer(bytes) => {
            assert(encode_payload(p) =~= buffer_open() + (encode_byte_array(bytes)
                + seq![125u8]));
        },
        Payload::Bit(b) => {
            assert(encode_payload(p) =~= bit_open() + (encode_byte(b) + seq![125u8]));
        },
    }
}

/// What is written is read back: decoding the bytes of a list gives the list.
pub proof fn lemma_decode_encode(items: Seq<Payload>)
    ensures
        decode_payloads(encode_payloads(items)) == Some(items),
{
    let data = encode_payloads(items);
    if items.len() == 0 {
        assert(items =~= Seq::<Payload>::empty());
    } else {
        let value = encode_payload(items[0]);
        let rest = encode_payloads_from(items, 1);
        let end = 1 + value.len() as int + rest.len() as int;
        assert(data =~= seq![91u8] + (value + rest));
        assert(data.len() == end);
        assert(data[0] == 91u8);
        lemma_payload_head(items[0]);
        assert(data[1] == value[0]);
        assert(at(data, 1, value)) by {
            assert(data.subrange(1, 1 + value.len() as int) =~= value);
        }
        assert(at(data, 1 + value.len() as int, rest)) by {
            assert(data.subrange(1 + value.len() as int, end) =~= rest);
        }
        lemma_parse_payload(data, 1, items[0]);
        lemma_parse_payloads_rest(data, 1 + value.len() as int, items, 1);
        assert(items.take(1) =~= seq![items[0]]);
        assert(parse_payload(data, 1) == Some((items[0], 1 + value.len() as int)));
        assert(parse_payloads_rest(data, 1 + value.len() as int, seq![items[0]]) == Some(
            (items, end),
        ));
    }
}

/// A number that is read stands there as it is written.
proof fn lemma_unparse_byte(data: Seq<u8>, pos: int)
    requires
        parse_byte(data, pos) is Some,
    ensures
        ({
            let (b, next) = parse_byte(data, pos)->0;
            &&& pos < next <= data.len()
            &&& data.subrange(pos, next) == encode_byte(b)
        }),
{
    let (b, next) = parse_byte(data, pos)->0;
    assert(data.subrange(pos, next) =~= encode_byte(b));
}

/// The rest of an array of numbers that is read stands there as it is
/// written, and the numbers read before it are kept.
proof fn lemma_unparse_bytes_rest(data: Seq<u8>, pos: int, acc: Seq<u8>)
    requires
        parse_bytes_rest(data, pos, acc) is Some,
    ensures
        ({
            let (bytes, next) = parse_bytes_rest(data, pos, acc)->0;
            &&& pos < next <= data.len()
            &&& acc.len() <= bytes.len()
            &&& bytes.take(acc.len() as int) == acc
            &&& data.subrange(pos, next) == encode_bytes_from(bytes, acc.len() as int)
        }),
    decreases data.len() - pos,
{
    let (bytes, next) = parse_bytes_rest(data, pos, acc)->0;
    if data[pos] == 93u8 {
        assert(bytes.take(acc.len() as int) =~= acc);
        assert(data.subrange(pos, next) =~= seq![93u8]);
    } else {
        let (b, after) = parse_byte(data, pos + 1)->0;
        lemma_unparse_byte(data, pos + 1);
        lemma_unparse_bytes_rest(data, after, acc.push(b));
        let i = acc.len() as int;
        assert(bytes.take(i + 1)[i] == b);
        assert(bytes[i] == b);
        assert(bytes.take(i) =~= bytes.take(i + 1).take(i));
        assert(acc.push(b).take(i) =~= acc);
        assert(data.subrange(pos, next) =~= seq![44u8] + data.subrange(pos + 1, after)
            + data.subrange(after, next));
    }
}

/// An array of numbers that is read stands there as it is written.
proof fn lemma_unparse_byte_array(data: Seq<u8>, pos: int)
    requires
        parse_byte_array(data, pos) is Some,
    ensures
        ({
            let (bytes, next) = parse_byte_array(data, pos)->0;
            &&& pos < next <= data.len()
            &&& data.subrange(pos, next) == encode_byte_array(bytes)
        }),
{
    let (bytes, next) = parse_byte_array(data, pos)->0;
    if pos + 1 < data.len() && data[pos + 1] == 93u8 {
        assert(data.subrange(pos, next) =~= seq![91u8, 93u8]);
    } else {
        let (b, after) = parse_byte(data, pos + 1)->0;
        lemma_unparse_byte(data, pos + 1);
        lemma_unparse_bytes_rest(data, after, seq![b]);
        assert(bytes.take(1)[0] == b);
        assert(data.subrange(pos, next) =~= seq![91u8] + data.subrange(pos + 1, after)
            + data.subrange(after, next));
    }
}

/// A value that is read stands there as it is written.
proof fn lemma_unparse_payload(data: Seq<u8>, pos: int)
    requires
        parse_payload(data, pos) is Some,
    ensures
        ({
            let (p, next) = parse_payload(data, pos)->0;
            &&& pos < next <= data.len()
            &&& data.subrange(pos, next) == encode_payload(p)
        }),
{
    let (p, next) = parse_payload(data, pos)->0;
    if at(data, pos, buffer_open()) {
        let (bytes, after) = parse_byte_array(data, pos + 10)->0;
        lemma_unparse_byte_array(data, pos + 10);
        assert(data.subrange(pos, next) =~= data.subrange(pos, pos + 10) + data.subrange(
            pos + 10,
            after,
        ) + seq![125u8]);
    } else {
        let (b, after) = parse_byte(data, pos + 7)->0;
        lemma_unparse_byte(data, pos + 7);
        assert(data.subrange(pos, next) =~= data.subrange(pos, pos + 7) + data.subrange(
            pos + 7,
            after,
        ) + seq![125u8]);
    }
}

/// The rest of a list of values that is read stands there as it is written,
/// and the values read before it are kept.
proof fn lemma_unparse_payloads_rest(data: Seq<u8>, pos: int, acc: Seq<Payload>)
    requires
        parse_payloads_rest(data, pos, acc) is Some,
    ensures
        ({
            let (items, next) = parse_payloads_rest(data, pos, acc)->0;
            &&& pos < next <= data.len()
            &&& acc.len() <= items.len()
            &&& items.take(acc.len() as int) == acc
            &&& data.subrange(pos, next) == encode_payloads_from(items, acc.len() as int)
        }),
    decreases data.len() - pos,
{
    let (items, next) = parse_payloads_rest(data, pos, acc)->0;
    if data[pos] == 93u8 {
        assert(items.take(acc.len() as int) =~= acc);
        assert(data.subrange(pos, next) =~= seq![93u8]);
    } else {
        let (p, after) = parse_payload(data, pos + 1)->0;
        lemma_unparse_payload(data, pos + 1);
        lemma_unparse_payloads_rest(data, after, acc.push(p));
        let i = acc.len() as int;
        assert(items.take(i + 1)[i] == p);
        assert(items[i] == p);
        assert(items.take(i) =~= items.take(i + 1).take(i));
        assert(acc.push(p).take(i) =~= acc);
        assert(data.subrange(pos, next) =~= seq![44u8] + data.subrange(pos + 1, after)
            + data.subrange(after, next));
    }
}

/// What is read was written so: bytes that decode to a list are the bytes
/// of that list. With `lemma_decode_encode`, the bytes that decode are
/// exactly the bytes that some list is written as.
pub proof fn lemma_encode_decode(data: Seq<u8>)
    requires
        decode_payloads(data) is Some,
    ensures
        encode_payloads(decode_payloads(data)->0) == data,
{
    let items = decode_payloads(data)->0;
    if 1 < data.len() && data[1] == 93u8 {
        assert(data =~= seq![91u8, 93u8]);
    } else {
        let (p, after) = parse_payload(data, 1)->0;
        lemma_unparse_payload(data, 1);
        lemma_unparse_payloads_rest(data, after, seq![p]);
        assert(items.take(1)[0] == p);
        assert(data =~= seq![91u8] + data.subrange(1, after) + data.subrange(
            after,
            data.len() as int,
        ));
    }
}

} // verus!

//! The lines that an encoder writes for data with two-byte addresses, and
//! the proof that decoding them gives the data back.
//!
//! Nothing here runs: the library only decodes. These functions say what a
//! line is made of, so that the decoder can be held to it.

use vstd::prelude::*;
use crate::convert::{decoded_prefix, failure_of, image_of, labels_of, label_of, payload_of};
use crate::error::DecodeError;
use crate::hex::{bytes_of_hex, decode_hex_spec, digit_value, is_hex, pair_value};
use crate::record::{
    byte_count, data_end_spec, data_start_spec, decode_spec, lemma_data_record, well_formed_header,
    RecordModel, MARKER, TYPE_DATA16,
};

verus! {

/// The upper-case hexadecimal digit for a value from 0 to 15.
pub open spec fn hex_digit(v: int) -> u8
    recommends
        0 <= v < 16,
{
    if v < 10 {
        (0x30 + v) as u8
    } else {
        (0x41 + v - 10) as u8
    }
}

/// `bytes` written in hexadecimal, two upper-case digits to a byte, most
/// significant first.
pub open spec fn hex_of(bytes: Seq<u8>) -> Seq<u8> {
    Seq::new(
        2 * bytes.len(),
        |i: int|
            if i % 2 == 0 {
                hex_digit(bytes[i / 2] as int / 16)
            } else {
                hex_digit(bytes[i / 2] as int % 16)
            },
    )
}

/// The sum of `bytes`.
pub open spec fn byte_sum(bytes: Seq<u8>) -> int
    decreases bytes.len(),
{
    if bytes.len() == 0 {
        0
    } else {
        byte_sum(bytes.drop_last()) + bytes.last() as int
    }
}

/// The checksum of the counted bytes of a record: the complement of the low
/// byte of their sum.
pub open spec fn checksum(bytes: Seq<u8>) -> u8 {
    (255 - byte_sum(bytes) % 256) as u8
}

/// The count, address and data bytes of a data record with a two-byte
/// address, before the checksum.
pub open spec fn data16_body(address: u16, data: Seq<u8>) -> Seq<u8>
    recommends
        data.len() <= 252,
{
    seq![(data.len() + 3) as u8, (address as int / 256) as u8, (address as int % 256) as u8] + data
}

/// The line that carries `data` at `address`: the marker, type `1`, then in
/// hexadecimal the byte count, the address, the data and the checksum.
pub open spec fn data16_line(address: u16, data: Seq<u8>) -> Seq<u8>
    recommends
        data.len() <= 252,
{
    let body = data16_body(address, data);
    seq![MARKER, TYPE_DATA16] + hex_of(body.push(checksum(body)))
}

/// The lines that carry each of `chunks` at the address of the same index.
pub open spec fn data16_lines(addresses: Seq<u16>, chunks: Seq<Seq<u8>>) -> Seq<Seq<u8>>
    recommends
        addresses.len() == chunks.len(),
{
    Seq::new(chunks.len(), |i: int| data16_line(addresses[i], chunks[i]))
}

/// Reading back what `hex_of` wrote gives the bytes that went in.
pub proof fn lemma_hex_round_trip(bytes: Seq<u8>)
    ensures
        is_hex(hex_of(bytes)),
        decode_hex_spec(hex_of(bytes)) == Ok::<Seq<u8>, DecodeError>(bytes),
{
    let text = hex_of(bytes);
    assert forall|i: int| 0 <= i < text.len() implies (#[trigger] digit_value(text[i])) is Some by {
        let b = bytes[i / 2] as int;
        assert(0 <= b / 16 < 16 && 0 <= b % 16 < 16);
    }
    assert forall|j: int| 0 <= j < bytes.len() implies bytes_of_hex(text)[j] == bytes[j] by {
        let b = bytes[j] as int;
        assert(text[2 * j] == hex_digit(b / 16));
        assert(text[2 * j + 1] == hex_digit(b % 16));
        assert(0 <= b / 16 < 16 && 0 <= b % 16 < 16);
        assert(16 * (b / 16) + b % 16 == b);
    }
    assert(bytes_of_hex(text) =~= bytes);
}

/// A stretch of `hex_of(bytes)` that starts and ends between bytes is the
/// hexadecimal of that stretch of `bytes`.
pub proof fn lemma_hex_of_subrange(bytes: Seq<u8>, from: int, to: int)
    requires
        0 <= from <= to <= bytes.len(),
    ensures
        hex_of(bytes).subrange(2 * from, 2 * to) == hex_of(bytes.subrange(from, to)),
{
    let left = hex_of(bytes).subrange(2 * from, 2 * to);
    let right = hex_of(bytes.subrange(from, to));
    assert forall|i: int| 0 <= i < left.len() implies left[i] == right[i] by {
        assert((2 * from + i) / 2 == from + i / 2);
        assert((2 * from + i) % 2 == i % 2);
    }
    assert(left =~= right);
}

/// The line written for `data` decodes to `data`, whatever the address.
pub proof fn lemma_line_round_trip(address: u16, data: Seq<u8>)
    requires
        data.len() <= 252,
    ensures
        decode_spec(data16_line(address, data)) == Ok::<RecordModel, DecodeError>(
            RecordModel::Data(data),
        ),
{
    let body = data16_body(address, data);
    let counted = body.push(checksum(body));
    let text = hex_of(counted);
    let line = data16_line(address, data);
    let n = data.len() as int;
    assert(line.len() == 2 * n + 10);
    assert forall|i: int| 0 <= i < text.len() implies line[i + 2] == text[i] by {}
    lemma_hex_round_trip(counted);
    lemma_hex_of_subrange(counted, 0, 1);
    lemma_hex_of_subrange(counted, 1, 3);
    lemma_hex_of_subrange(counted, 3, 3 + n);
    assert(line.subrange(2, 4) =~= text.subrange(0, 2));
    assert(line.subrange(4, 8) =~= text.subrange(2, 6));
    assert(line.subrange(8, 2 * n + 8) =~= text.subrange(6, 2 * n + 6));
    assert(counted.subrange(3, 3 + n) =~= data);
    let count = counted.subrange(0, 1);
    lemma_hex_round_trip(count);
    assert(hex_of(count)[0] == line[2]);
    assert(hex_of(count)[1] == line[3]);
    assert(digit_value(hex_of(count)[0]) is Some);
    assert(digit_value(hex_of(count)[1]) is Some);
    assert(bytes_of_hex(hex_of(count))[0] == pair_value(line[2], line[3]));
    assert(byte_count(line) == n + 3);
    lemma_hex_round_trip(counted.subrange(1, 3));
    lemma_hex_round_trip(data);
    assert(data_start_spec(line[1]) == Some(8int));
    assert(data_end_spec(line) == 2 * n + 8);
    assert(well_formed_header(line));
    lemma_data_record(line);
}

/// Decoding a file of such lines and joining the payloads in line order
/// gives the chunks joined in the same order: no line fails, the image is the
/// data that the encoder packed, and nothing is printed.
pub proof fn lemma_file_round_trip(addresses: Seq<u16>, chunks: Seq<Seq<u8>>)
    requires
        addresses.len() == chunks.len(),
        forall|i: int| 0 <= i < chunks.len() ==> (#[trigger] chunks[i]).len() <= 252,
    ensures
        decoded_prefix(data16_lines(addresses, chunks)) == chunks.len(),
        failure_of(data16_lines(addresses, chunks)) is None,
        image_of(data16_lines(addresses, chunks)) == chunks.flatten(),
        labels_of(data16_lines(addresses, chunks)) == Seq::<Seq<char>>::empty(),
{
    let lines = data16_lines(addresses, chunks);
    assert forall|i: int| 0 <= i < lines.len() implies decode_spec(#[trigger] lines[i]) == Ok::<
        RecordModel,
        DecodeError,
    >(RecordModel::Data(chunks[i])) by {
        lemma_line_round_trip(addresses[i], chunks[i]);
    }
    crate::convert::lemma_decoded_prefix(lines, lines.len() as int);
    assert(lines.map_values(|line: Seq<u8>| payload_of(line)) =~= chunks);
    crate::convert::lemma_nothing_joined(lines.map_values(|line: Seq<u8>| label_of(line)));
}

} // verus!

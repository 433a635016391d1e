//! One S-record line: its header, the span of its payload, and what it
//! decodes to.

use vstd::prelude::*;
use vstd::string::StringSliceAdditionalSpecFns;
use crate::error::DecodeError;
use crate::hex::{
    bytes_of_hex, bytes_to_text, decode_hex, decode_hex_spec, digit_value, hex_digit_value,
    hex_pair_value, is_hex, latin1, pair_value,
};

verus! {

/// The character that opens every record.
pub const MARKER: u8 = 0x53;

/// Type character of a label record, `0`.
pub const TYPE_LABEL: u8 = 0x30;

/// Type character of a data record with a two-byte address, `1`.
pub const TYPE_DATA16: u8 = 0x31;

/// Type character of a data record with a three-byte address, `2`.
pub const TYPE_DATA24: u8 = 0x32;

/// Type character of a data record with a four-byte address, `3`.
pub const TYPE_DATA32: u8 = 0x33;

/// What one line decodes to.
#[derive(Debug, PartialEq, Eq)]
pub enum DecodedRecord {
    /// The text of a label record.
    Label(String),
    /// The payload of a data record.
    Data(Vec<u8>),
    /// A record of any other type: it carries nothing to emit.
    Ignored,
}

/// The mathematical value of a [`DecodedRecord`].
pub ghost enum RecordModel {
    Label(Seq<char>),
    Data(Seq<u8>),
    Ignored,
}

impl View for DecodedRecord {
    type V = RecordModel;

    open spec fn view(&self) -> RecordModel {
        match self {
            DecodedRecord::Label(text) => RecordModel::Label(text@),
            DecodedRecord::Data(bytes) => RecordModel::Data(bytes@),
            DecodedRecord::Ignored => RecordModel::Ignored,
        }
    }
}

impl Clone for DecodedRecord {
    fn clone(&self) -> (res: Self)
        ensures
            res@ == self@,
    {
        match self {
            DecodedRecord::Label(text) => DecodedRecord::Label(text.clone()),
            DecodedRecord::Data(bytes) => DecodedRecord::Data(bytes.clone()),
            DecodedRecord::Ignored => DecodedRecord::Ignored,
        }
    }
}

/// The offset of the first payload character in a record of type
/// `record_type`: type and count take four characters, the address four, six
/// or eight. `None` for a type that carries no payload.
pub open spec fn data_start_spec(record_type: u8) -> Option<int> {
    if record_type == TYPE_LABEL || record_type == TYPE_DATA16 {
        Some(8)
    } else if record_type == TYPE_DATA24 {
        Some(10)
    } else if record_type == TYPE_DATA32 {
        Some(12)
    } else {
        None
    }
}

/// The byte count that the line declares: the number of bytes of address,
/// payload and checksum together.
pub open spec fn byte_count(line: Seq<u8>) -> int
    recommends
        line.len() >= 4,
        digit_value(line[2]) is Some,
        digit_value(line[3]) is Some,
{
    pair_value(line[2], line[3]) as int
}

/// The offset one past the last payload character, as the byte count gives
/// it: four header characters, two for each counted byte, less the two of the
/// checksum.
pub open spec fn data_end_spec(line: Seq<u8>) -> int
    recommends
        line.len() >= 4,
        digit_value(line[2]) is Some,
        digit_value(line[3]) is Some,
{
    4 + 2 * byte_count(line) - 2
}

/// The line has the header of a label or data record: the marker, a type
/// from `0` to `3`, a hexadecimal count that leaves room for the address and
/// the checksum and does not run past the end of the line, and a hexadecimal
/// address. Characters after the counted span are allowed.
pub open spec fn well_formed_header(line: Seq<u8>) -> bool {
    &&& line.len() >= 4
    &&& line[0] == MARKER
    &&& data_start_spec(line[1]) is Some
    &&& digit_value(line[2]) is Some
    &&& digit_value(line[3]) is Some
    &&& data_start_spec(line[1])->0 <= data_end_spec(line)
    &&& data_end_spec(line) + 2 <= line.len()
    &&& is_hex(line.subrange(4, data_start_spec(line[1])->0))
}

/// The span of the payload characters of `line`, first offset and one past
/// the last. A data record's payload ends where its byte count says; a label
/// record's ends two characters before the end of the line.
pub open spec fn payload_span_spec(line: Seq<u8>) -> Result<(int, int), DecodeError> {
    if line.len() < 2 || line[0] != MARKER {
        Err(DecodeError::MalformedHeader)
    } else if data_start_spec(line[1]) is None {
        Err(DecodeError::UnsupportedRecordType)
    } else if !well_formed_header(line) {
        Err(DecodeError::MalformedHeader)
    } else if line[1] == TYPE_LABEL {
        Ok((8, line.len() - 2))
    } else {
        Ok((data_start_spec(line[1])->0, data_end_spec(line)))
    }
}

/// What `line` decodes to. A line without the marker and a type character is
/// malformed; a type other than `0` to `3` is ignored whatever follows it;
/// otherwise the header must be well formed and the payload must be an even
/// number of hexadecimal digits.
pub open spec fn decode_spec(line: Seq<u8>) -> Result<RecordModel, DecodeError> {
    if line.len() < 2 || line[0] != MARKER {
        Err(DecodeError::MalformedHeader)
    } else if data_start_spec(line[1]) is None {
        Ok(RecordModel::Ignored)
    } else {
        match payload_span_spec(line) {
            Err(e) => Err(e),
            Ok((start, end)) => match decode_hex_spec(line.subrange(start, end)) {
                Err(e) => Err(e),
                Ok(bytes) => if line[1] == TYPE_LABEL {
                    Ok(RecordModel::Label(latin1(bytes)))
                } else {
                    Ok(RecordModel::Data(bytes))
                },
            },
        }
    }
}

/// The offset of the first payload character for a record type, given as its
/// character.
pub fn data_start(record_type: u8) -> (res: Result<usize, DecodeError>)
    ensures
        match res {
            Ok(start) => data_start_spec(record_type) == Some(start as int),
            Err(e) => data_start_spec(record_type) is None && e
                == DecodeError::UnsupportedRecordType,
        },
{
    if record_type == TYPE_LABEL || record_type == TYPE_DATA16 {
        Ok(8)
    } else if record_type == TYPE_DATA24 {
        Ok(10)
    } else if record_type == TYPE_DATA32 {
        Ok(12)
    } else {
        Err(DecodeError::UnsupportedRecordType)
    }
}

/// Checks the header of `line` and finds the span of its payload characters.
#[verifier::loop_isolation(false)]
pub fn payload_span(line: &[u8]) -> (res: Result<(usize, usize), DecodeError>)
    ensures
        match res {
            Ok((start, end)) => payload_span_spec(line@) == Ok::<(int, int), DecodeError>(
                (start as int, end as int),
            ),
            Err(e) => payload_span_spec(line@) == Err::<(int, int), DecodeError>(e),
        },
        res is Ok ==> res->Ok_0.0 <= res->Ok_0.1 <= line@.len(),
{
    let n: usize = line.len();
    if n < 2 || line[0] != MARKER {
        return Err(DecodeError::MalformedHeader);
    }
    let start: usize = match data_start(line[1]) {
        Ok(start) => start,
        Err(e) => {
            return Err(e);
        },
    };
    if n < 4 {
        return Err(DecodeError::MalformedHeader);
    }
    let count: usize = match hex_pair_value(line[2], line[3]) {
        Some(count) => count as usize,
        None => {
            return Err(DecodeError::MalformedHeader);
        },
    };
    let end: usize = 4 + 2 * count - 2;
    if end < start || n < end + 2 {
        return Err(DecodeError::MalformedHeader);
    }
    let mut i: usize = 4;
    while i < start
        invariant
            4 <= i <= start,
            forall|k: int| 4 <= k < i ==> (#[trigger] digit_value(line@[k])) is Some,
        decreases start - i,
    {
        if hex_digit_value(line[i]).is_none() {
            proof {
                let address = line@.subrange(4, start as int);
                assert(digit_value(address[i - 4]) is None);
            }
            return Err(DecodeError::MalformedHeader);
        }
        i += 1;
    }
    proof {
        let address = line@.subrange(4, start as int);
        assert forall|k: int| 0 <= k < address.len() implies (#[trigger] digit_value(
            address[k],
        )) is Some by {
            assert(address[k] == line@[k + 4]);
        }
    }
    if line[1] == TYPE_LABEL {
        Ok((8, n - 2))
    } else {
        Ok((start, end))
    }
}

/// The relation between what the decoder returns and what the line decodes
/// to.
pub open spec fn decodes_to(
    line: Seq<u8>,
    res: Result<DecodedRecord, DecodeError>,
) -> bool {
    match res {
        Ok(record) => decode_spec(line) == Ok::<RecordModel, DecodeError>(record@),
        Err(e) => decode_spec(line) == Err::<RecordModel, DecodeError>(e),
    }
}

/// Decodes one line, given as its bytes.
pub fn decode_bytes(line: &[u8]) -> (res: Result<DecodedRecord, DecodeError>)
    ensures
        decodes_to(line@, res),
{
    match payload_span(line) {
        Err(DecodeError::UnsupportedRecordType) => Ok(DecodedRecord::Ignored),
        Err(e) => Err(e),
        Ok((start, end)) => {
            match decode_hex(&line[start..end]) {
                Err(e) => Err(e),
                Ok(bytes) => {
                    if line[1] == TYPE_LABEL {
                        Ok(DecodedRecord::Label(bytes_to_text(&bytes)))
                    } else {
                        Ok(DecodedRecord::Data(bytes))
                    }
                },
            }
        },
    }
}

/// Decodes one line of text.
pub fn decode(line: &str) -> (res: Result<DecodedRecord, DecodeError>)
    ensures
        decodes_to(line.spec_bytes(), res),
{
    decode_bytes(line.as_bytes())
}

/// A data record with a well-formed header and a hexadecimal payload decodes
/// to the bytes that the payload's digit pairs write, and there are as many
/// of them as the byte count less the address bytes and the checksum byte:
/// the count less three for type `1`, less four for type `2`, less five for
/// type `3`.
pub proof fn lemma_data_record(line: Seq<u8>)
    requires
        well_formed_header(line),
        line[1] != TYPE_LABEL,
        is_hex(line.subrange(data_start_spec(line[1])->0, data_end_spec(line))),
    ensures
        decode_spec(line) == Ok::<RecordModel, DecodeError>(
            RecordModel::Data(
                bytes_of_hex(line.subrange(data_start_spec(line[1])->0, data_end_spec(line))),
            ),
        ),
        bytes_of_hex(line.subrange(data_start_spec(line[1])->0, data_end_spec(line))).len()
            == byte_count(line) - (data_start_spec(line[1])->0 - 4) / 2 - 1,
        line[1] == TYPE_DATA16 ==> bytes_of_hex(line.subrange(8, data_end_spec(line))).len()
            == byte_count(line) - 3,
{
}

/// A label record with a well-formed header and a payload of an even number
/// of hexadecimal digits decodes to a text with one character for each digit
/// pair between the eighth character and the checksum.
pub proof fn lemma_label_record(line: Seq<u8>)
    requires
        well_formed_header(line),
        line[1] == TYPE_LABEL,
        line.len() % 2 == 0,
        is_hex(line.subrange(8, line.len() - 2)),
    ensures
        decode_spec(line) == Ok::<RecordModel, DecodeError>(
            RecordModel::Label(latin1(bytes_of_hex(line.subrange(8, line.len() - 2)))),
        ),
        latin1(bytes_of_hex(line.subrange(8, line.len() - 2))).len() == (line.len() - 8 - 2) / 2,
{
}

/// A label or data record whose byte count reaches past the end of the line
/// is malformed.
pub proof fn lemma_short_line(line: Seq<u8>)
    requires
        line.len() >= 4,
        line[0] == MARKER,
        data_start_spec(line[1]) is Some,
        digit_value(line[2]) is Some,
        digit_value(line[3]) is Some,
        4 + 2 * byte_count(line) > line.len(),
    ensures
        decode_spec(line) == Err::<RecordModel, DecodeError>(DecodeError::MalformedHeader),
{
}

/// A line fails for an odd payload exactly when it is a label record with a
/// well-formed header and an odd number of characters between the eighth and
/// the checksum. The payload of a data record is cut by the byte count and
/// always has an even number of characters.
pub proof fn lemma_odd_payload(line: Seq<u8>)
    ensures
        decode_spec(line) == Err::<RecordModel, DecodeError>(DecodeError::OddPayloadLength) <==> {
            &&& well_formed_header(line)
            &&& line[1] == TYPE_LABEL
            &&& (line.len() - 8 - 2) % 2 == 1
        },
{
}

/// No line fails for its record type: a type that has no payload is ignored.
pub proof fn lemma_type_never_fails(line: Seq<u8>)
    ensures
        decode_spec(line) != Err::<RecordModel, DecodeError>(DecodeError::UnsupportedRecordType),
{
}

} // verus!

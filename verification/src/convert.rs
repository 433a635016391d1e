//! A whole file: its lines decoded in order, the payloads joined into one
//! image and the labels collected, up to the first line that fails.

use vstd::prelude::*;
use vstd::utf8::encode_utf8;
use crate::error::DecodeError;
use crate::record::{
    data_start_spec, decode, decode_spec, DecodedRecord, RecordModel, MARKER,
};

verus! {

/// The first line that failed to decode.
#[derive(Clone, Copy, Debug, PartialEq, Eq, Structural)]
pub struct Failure {
    /// Its index among the lines, counted from zero.
    pub line: usize,
    /// Why it failed.
    pub error: DecodeError,
}

/// What converting a file gives.
#[derive(Debug, PartialEq, Eq)]
pub struct Conversion {
    /// The payloads of the data records, joined in line order.
    pub image: Vec<u8>,
    /// The texts of the label records, in line order.
    pub labels: Vec<String>,
    /// The first line that failed, if any. The image and the labels are
    /// those of the lines before it.
    pub failure: Option<Failure>,
}

/// The bytes of each line.
pub open spec fn lines_bytes(lines: Seq<String>) -> Seq<Seq<u8>> {
    Seq::new(lines.len(), |i: int| encode_utf8(lines[i]@))
}

/// The characters of each string.
pub open spec fn texts(labels: Seq<String>) -> Seq<Seq<char>> {
    Seq::new(labels.len(), |i: int| labels[i]@)
}

/// The bytes that one line adds to the image: the payload of a data record,
/// nothing for any other line.
pub open spec fn payload_of(line: Seq<u8>) -> Seq<u8> {
    match decode_spec(line) {
        Ok(RecordModel::Data(bytes)) => bytes,
        _ => Seq::empty(),
    }
}

/// The labels that one line adds: the text of a label record, nothing for
/// any other line.
pub open spec fn label_of(line: Seq<u8>) -> Seq<Seq<char>> {
    match decode_spec(line) {
        Ok(RecordModel::Label(text)) => seq![text],
        _ => Seq::empty(),
    }
}

/// The image of `lines`: their payloads joined in order.
pub open spec fn image_of(lines: Seq<Seq<u8>>) -> Seq<u8> {
    lines.map_values(|line: Seq<u8>| payload_of(line)).flatten()
}

/// The labels of `lines`, in order.
pub open spec fn labels_of(lines: Seq<Seq<u8>>) -> Seq<Seq<char>> {
    lines.map_values(|line: Seq<u8>| label_of(line)).flatten()
}

/// The number of lines at the front of `lines` that decode: the index of the
/// first that fails, or the number of lines when none does.
pub open spec fn decoded_prefix(lines: Seq<Seq<u8>>) -> int
    decreases lines.len(),
{
    if lines.len() == 0 || decode_spec(lines[0]) is Err {
        0
    } else {
        1 + decoded_prefix(lines.drop_first())
    }
}

/// The image that converting `lines` gives: that of the lines before the
/// first failure.
pub open spec fn converted_image(lines: Seq<Seq<u8>>) -> Seq<u8> {
    image_of(lines.take(decoded_prefix(lines)))
}

/// The labels that converting `lines` gives: those of the lines before the
/// first failure.
pub open spec fn converted_labels(lines: Seq<Seq<u8>>) -> Seq<Seq<char>> {
    labels_of(lines.take(decoded_prefix(lines)))
}

/// What converting `lines` reports as its failure.
pub open spec fn failure_of(lines: Seq<Seq<u8>>) -> Option<Failure> {
    let k = decoded_prefix(lines);
    if k < lines.len() {
        Some(Failure { line: k as usize, error: decode_spec(lines[k])->Err_0 })
    } else {
        None
    }
}

/// `decoded_prefix` is the one index before which every line decodes and at
/// which, if it is a line at all, the line fails.
pub proof fn lemma_decoded_prefix(lines: Seq<Seq<u8>>, k: int)
    requires
        0 <= k <= lines.len(),
        forall|i: int| 0 <= i < k ==> (#[trigger] decode_spec(lines[i])) is Ok,
        k < lines.len() ==> decode_spec(lines[k]) is Err,
    ensures
        decoded_prefix(lines) == k,
    decreases lines.len(),
{
    if k > 0 {
        let rest = lines.drop_first();
        assert(decode_spec(lines[0]) is Ok);
        assert forall|i: int| 0 <= i < k - 1 implies (#[trigger] decode_spec(rest[i])) is Ok by {
            assert(rest[i] == lines[i + 1]);
            assert(decode_spec(lines[i + 1]) is Ok);
        }
        assert(k - 1 < rest.len() ==> rest[k - 1] == lines[k]);
        lemma_decoded_prefix(rest, k - 1);
    }
}

/// Taking one more line adds that line's payload to the image and its label
/// to the labels.
pub proof fn lemma_take_next(lines: Seq<Seq<u8>>, i: int)
    requires
        0 <= i < lines.len(),
    ensures
        image_of(lines.take(i + 1)) == image_of(lines.take(i)) + payload_of(lines[i]),
        labels_of(lines.take(i + 1)) == labels_of(lines.take(i)) + label_of(lines[i]),
{
    let before = lines.take(i);
    let after = lines.take(i + 1);
    assert(after =~= before.push(lines[i]));
    let payloads = |line: Seq<u8>| payload_of(line);
    let labels = |line: Seq<u8>| label_of(line);
    assert(after.map_values(payloads) =~= before.map_values(payloads).push(payload_of(lines[i])));
    assert(after.map_values(labels) =~= before.map_values(labels).push(label_of(lines[i])));
    before.map_values(payloads).lemma_flatten_push(payload_of(lines[i]));
    before.map_values(labels).lemma_flatten_push(label_of(lines[i]));
}

/// Decodes `lines` in order until one fails, joining the payloads of the
/// data records and collecting the texts of the label records.
pub fn convert(lines: &Vec<String>) -> (out: Conversion)
    ensures
        out.failure == failure_of(lines_bytes(lines@)),
        out.image@ == converted_image(lines_bytes(lines@)),
        texts(out.labels@) == converted_labels(lines_bytes(lines@)),
{
    let ghost all = lines_bytes(lines@);
    let mut image: Vec<u8> = Vec::new();
    let mut labels: Vec<String> = Vec::new();
    let mut i: usize = 0;
    assert(all.take(0).map_values(|line: Seq<u8>| payload_of(line)) =~= Seq::empty());
    assert(all.take(0).map_values(|line: Seq<u8>| label_of(line)) =~= Seq::empty());
    assert(texts(labels@) =~= Seq::empty());
    while i < lines.len()
        invariant
            all == lines_bytes(lines@),
            i <= lines@.len(),
            forall|k: int| 0 <= k < i ==> (#[trigger] decode_spec(all[k])) is Ok,
            image@ == image_of(all.take(i as int)),
            texts(labels@) == labels_of(all.take(i as int)),
        decreases lines@.len() - i,
    {
        proof {
            lemma_take_next(all, i as int);
        }
        match decode(lines[i].as_str()) {
            Ok(DecodedRecord::Label(text)) => {
                let ghost before = labels@;
                labels.push(text);
                assert(texts(labels@) =~= texts(before) + seq![text@]);
            },
            Ok(DecodedRecord::Data(mut bytes)) => {
                image.append(&mut bytes);
            },
            Ok(DecodedRecord::Ignored) => {},
            Err(error) => {
                proof {
                    lemma_decoded_prefix(all, i as int);
                }
                return Conversion { image, labels, failure: Some(Failure { line: i, error }) };
            },
        }
        i += 1;
    }
    proof {
        lemma_decoded_prefix(all, i as int);
        assert(all.take(i as int) =~= all);
    }
    Conversion { image, labels, failure: None }
}

/// Joining sequences that are all empty gives the empty sequence.
pub proof fn lemma_nothing_joined<A>(parts: Seq<Seq<A>>)
    requires
        forall|i: int| 0 <= i < parts.len() ==> (#[trigger] parts[i]).len() == 0,
    ensures
        parts.flatten() == Seq::<A>::empty(),
    decreases parts.len(),
{
    if parts.len() > 0 {
        let rest = parts.drop_first();
        assert forall|i: int| 0 <= i < rest.len() implies (#[trigger] rest[i]).len() == 0 by {
            assert(rest[i] == parts[i + 1]);
        }
        lemma_nothing_joined(rest);
        assert(parts[0].len() == 0);
        assert(parts.flatten() =~= Seq::<A>::empty());
    }
}

/// A file that holds only records of types without a payload, such as the
/// terminators `S7`, `S8` and `S9`, converts without failure to an empty
/// image and no labels.
pub proof fn lemma_only_ignored(lines: Seq<Seq<u8>>)
    requires
        forall|i: int|
            0 <= i < lines.len() ==> {
                &&& (#[trigger] lines[i]).len() >= 2
                &&& lines[i][0] == MARKER
                &&& data_start_spec(lines[i][1]) is None
            },
    ensures
        failure_of(lines) is None,
        converted_image(lines) == Seq::<u8>::empty(),
        converted_labels(lines) == Seq::<Seq<char>>::empty(),
{
    assert forall|i: int| 0 <= i < lines.len() implies decode_spec(#[trigger] lines[i]) == Ok::<
        RecordModel,
        DecodeError,
    >(RecordModel::Ignored) by {
        assert(lines[i].len() >= 2);
    }
    lemma_decoded_prefix(lines, lines.len() as int);
    assert(lines.take(lines.len() as int) =~= lines);
    lemma_nothing_joined(lines.map_values(|line: Seq<u8>| payload_of(line)));
    lemma_nothing_joined(lines.map_values(|line: Seq<u8>| label_of(line)));
}

} // verus!

//! The record of a stream: a metric record after the transforms of its
//! stream, stamped with the signature of its labels.
//!
//! The signature tells records of one series from those of another. It is
//! taken over every label but one named `value`, and it does not depend on
//! the order of the labels.

use vstd::prelude::*;
use vstd::string::StringSliceAdditionalSpecFns;
use vstd::utf8::encode_utf8;
use crate::labels::{Label, LabelText};
use crate::series::{clone_labels, MetricRecord, RecordView};
use crate::text::same_text;

verus! {

/// Name of the field that holds a record's value.
pub const VALUE_LABEL: &'static str = "value";

/// Name of the field that holds a record's signature.
pub const HASH_LABEL: &'static str = "__hash__";

/// Start value of the hash of a text.
pub const HASH_OFFSET: u64 = 0xcbf2_9ce4_8422_2325;

/// Multiplier of the hash of a text.
pub const HASH_PRIME: u64 = 0x0000_0100_0000_01b3;

/// The byte that parts a label's name from its value in the hash; no text
/// holds it.
pub const HASH_SEPARATOR: u8 = 0xff;

/// One step of the hash: the byte is mixed in, then the hash is multiplied.
pub open spec fn hash_step(hash: u64, byte: u8) -> u64 {
    (hash ^ (byte as u64)).wrapping_mul(HASH_PRIME)
}

/// The hash after the bytes were mixed in, one after the other.
pub open spec fn hash_bytes(hash: u64, bytes: Seq<u8>) -> u64
    decreases bytes.len(),
{
    if bytes.len() == 0 {
        hash
    } else {
        hash_step(hash_bytes(hash, bytes.drop_last()), bytes.last())
    }
}

/// The hash of one label: of the bytes of its name, the separator, and the
/// bytes of its value.
pub open spec fn label_hash(label: LabelText) -> u64 {
    hash_bytes(
        hash_step(hash_bytes(HASH_OFFSET, encode_utf8(label.name)), HASH_SEPARATOR),
        encode_utf8(label.value),
    )
}

/// The signature of a label set as a number: the sum, modulo 2^64, of the
/// hashes of its labels, but for those named `value`.
pub open spec fn signature_of(labels: Seq<LabelText>) -> u64
    decreases labels.len(),
{
    if labels.len() == 0 {
        0
    } else {
        let rest = signature_of(labels.drop_last());
        if labels.last().name == VALUE_LABEL@ {
            rest
        } else {
            rest.wrapping_add(label_hash(labels.last()))
        }
    }
}

/// The hexadecimal digit of a number below sixteen.
pub open spec fn hex_digit(nibble: u64) -> char {
    if nibble == 0 {
        '0'
    } else if nibble == 1 {
        '1'
    } else if nibble == 2 {
        '2'
    } else if nibble == 3 {
        '3'
    } else if nibble == 4 {
        '4'
    } else if nibble == 5 {
        '5'
    } else if nibble == 6 {
        '6'
    } else if nibble == 7 {
        '7'
    } else if nibble == 8 {
        '8'
    } else if nibble == 9 {
        '9'
    } else if nibble == 10 {
        'a'
    } else if nibble == 11 {
        'b'
    } else if nibble == 12 {
        'c'
    } else if nibble == 13 {
        'd'
    } else if nibble == 14 {
        'e'
    } else {
        'f'
    }
}

/// The `digits` lowest hexadecimal digits of a number, highest first.
pub open spec fn hex_text(value: u64, digits: nat) -> Seq<char>
    decreases digits,
{
    if digits == 0 {
        Seq::empty()
    } else {
        hex_text(value / 16, (digits - 1) as nat).push(hex_digit(value % 16))
    }
}

fn digit_of(nibble: u64) -> (r: char)
    requires
        nibble < 16,
    ensures
        r == hex_digit(nibble),
{
    if nibble == 0 {
        '0'
    } else if nibble == 1 {
        '1'
    } else if nibble == 2 {
        '2'
    } else if nibble == 3 {
        '3'
    } else if nibble == 4 {
        '4'
    } else if nibble == 5 {
        '5'
    } else if nibble == 6 {
        '6'
    } else if nibble == 7 {
        '7'
    } else if nibble == 8 {
        '8'
    } else if nibble == 9 {
        '9'
    } else if nibble == 10 {
        'a'
    } else if nibble == 11 {
        'b'
    } else if nibble == 12 {
        'c'
    } else if nibble == 13 {
        'd'
    } else if nibble == 14 {
        'e'
    } else {
        'f'
    }
}

/// Writes a number with sixteen hexadecimal digits.
pub fn to_hex(value: u64) -> (r: String)
    ensures
        r@ == hex_text(value, 16),
{
    let mut digits: Vec<char> = Vec::new();
    let mut rest = value;
    let mut n: usize = 0;
    // The digits are found lowest first.
    while n < 16
        invariant
            n <= 16,
            digits@.len() == n,
            forall|k: nat| #[trigger] hex_text(value, n as nat + k) == hex_text(rest, k) + digits@.reverse(),
        decreases 16 - n,
    {
        let ghost before = digits@;
        let ghost old_rest = rest;
        digits.push(digit_of(rest % 16));
        rest = rest / 16;
        proof {
            assert forall|k: nat| #[trigger]
                hex_text(value, (n + 1) as nat + k) == hex_text(rest, k) + digits@.reverse() by {
                assert(hex_text(value, n as nat + (k + 1)) == hex_text(old_rest, k + 1) + before.reverse());
                assert(digits@.reverse() =~= seq![hex_digit(old_rest % 16)] + before.reverse());
                assert(hex_text(old_rest, k + 1) == hex_text(rest, k).push(hex_digit(old_rest % 16)));
                assert(hex_text(rest, k).push(hex_digit(old_rest % 16)) + before.reverse() =~= hex_text(rest, k)
                    + digits@.reverse());
                assert((n + 1) as nat + k == n as nat + (k + 1));
            }
        }
        n += 1;
    }
    assert(hex_text(value, 16 + 0) == hex_text(rest, 0) + digits@.reverse());
    assert(hex_text(rest, 0) + digits@.reverse() =~= digits@.reverse());
    let mut out = String::new();
    let mut i: usize = 16;
    while i > 0
        invariant
            i <= 16,
            digits@.len() == 16,
            out@ == digits@.reverse().take(16 - i),
        decreases i,
    {
        i -= 1;
        let ghost before = out@;
        out.push(digits[i]);
        assert(digits@.reverse()[15 - i] == digits@[i as int]);
        assert(out@ =~= digits@.reverse().take(16 - i));
    }
    assert(digits@.reverse().take(16) =~= digits@.reverse());
    out
}

fn mix_bytes(start: u64, bytes: &[u8]) -> (r: u64)
    ensures
        r == hash_bytes(start, bytes@),
{
    let mut hash = start;
    let mut i: usize = 0;
    while i < bytes.len()
        invariant
            i <= bytes.len(),
            hash == hash_bytes(start, bytes@.take(i as int)),
        decreases bytes.len() - i,
    {
        proof {
            assert(bytes@.take(i + 1).drop_last() =~= bytes@.take(i as int));
            assert(bytes@.take(i + 1).last() == bytes[i as int]);
        }
        hash = (hash ^ (bytes[i] as u64)).wrapping_mul(HASH_PRIME);
        i += 1;
    }
    assert(bytes@.take(bytes.len() as int) =~= bytes@);
    hash
}

fn hash_label(label: &Label) -> (r: u64)
    ensures
        r == label_hash(label@),
{
    let named = mix_bytes(HASH_OFFSET, label.name.as_str().as_bytes());
    let parted = (named ^ (HASH_SEPARATOR as u64)).wrapping_mul(HASH_PRIME);
    mix_bytes(parted, label.value.as_str().as_bytes())
}

/// The signature of a label set: sixteen hexadecimal digits.
pub fn signature(labels: &Vec<Label>) -> (r: String)
    ensures
        r@ == hex_text(signature_of(labels.deep_view()), 16),
{
    let mut sum: u64 = 0;
    let mut i: usize = 0;
    while i < labels.len()
        invariant
            i <= labels.len(),
            sum == signature_of(labels.deep_view().take(i as int)),
        decreases labels.len() - i,
    {
        proof {
            assert(labels.deep_view().take(i + 1).drop_last() =~= labels.deep_view().take(i as int));
            assert(labels.deep_view().take(i + 1).last() == labels[i as int]@);
        }
        if !same_text(labels[i].name.as_str(), VALUE_LABEL) {
            sum = sum.wrapping_add(hash_label(&labels[i]));
        }
        i += 1;
    }
    assert(labels.deep_view().take(labels.len() as int) =~= labels.deep_view());
    to_hex(sum)
}

/// A record of a stream, ready for its bucket.
#[derive(Debug)]
pub struct StreamRecord {
    /// The labels of the record.
    pub labels: Vec<Label>,
    /// The value: the bit pattern of a finite double-precision number.
    pub value: u64,
    /// The signature of the labels.
    pub hash: String,
    /// Time of the sample, in microseconds since 1970.
    pub timestamp: i64,
}

/// A record of a stream as plain values.
pub ghost struct StreamRecordView {
    pub labels: Seq<LabelText>,
    pub value: u64,
    pub hash: Seq<char>,
    pub timestamp: int,
}

impl View for StreamRecord {
    type V = StreamRecordView;

    open spec fn view(&self) -> StreamRecordView {
        StreamRecordView {
            labels: self.labels.deep_view(),
            value: self.value,
            hash: self.hash@,
            timestamp: self.timestamp as int,
        }
    }
}

impl DeepView for StreamRecord {
    type V = StreamRecordView;

    open spec fn deep_view(&self) -> StreamRecordView {
        self@
    }
}

/// The record of a stream that a metric record with the value `value`
/// becomes.
pub open spec fn stamped(record: RecordView, value: u64) -> StreamRecordView {
    StreamRecordView {
        labels: record.labels,
        value,
        hash: hex_text(signature_of(record.labels), 16),
        timestamp: record.timestamp,
    }
}

/// Makes the record of a stream of a metric record, with the given value
/// and the signature of its labels.
pub fn stamp(record: &MetricRecord, value: u64) -> (r: StreamRecord)
    ensures
        r@ == stamped(record@, value),
{
    StreamRecord {
        labels: clone_labels(&record.labels),
        value,
        hash: signature(&record.labels),
        timestamp: record.timestamp,
    }
}

/// What one label adds to the signature.
pub open spec fn signature_part(label: LabelText) -> u64 {
    if label.name == VALUE_LABEL@ {
        0
    } else {
        label_hash(label)
    }
}

proof fn lemma_signature_step(labels: Seq<LabelText>)
    requires
        labels.len() > 0,
    ensures
        signature_of(labels) == signature_of(labels.drop_last()).wrapping_add(signature_part(labels.last())),
{
}

proof fn lemma_signature_without(labels: Seq<LabelText>, at: int)
    requires
        0 <= at < labels.len(),
    ensures
        signature_of(labels) == signature_of(labels.remove(at)).wrapping_add(signature_part(labels[at])),
    decreases labels.len(),
{
    lemma_signature_step(labels);
    if at == labels.len() - 1 {
        assert(labels.remove(at) =~= labels.drop_last());
    } else {
        let shorter = labels.drop_last();
        lemma_signature_without(shorter, at);
        assert(labels.remove(at).drop_last() =~= shorter.remove(at));
        assert(labels.remove(at).last() == labels.last());
        lemma_signature_step(labels.remove(at));
        let base = signature_of(shorter.remove(at));
        let one = signature_part(labels[at]);
        let other = signature_part(labels.last());
        assert(base.wrapping_add(other).wrapping_add(one) == base.wrapping_add(one).wrapping_add(other));
    }
}

/// The signature does not depend on the order of the labels: two label sets
/// that hold the same labels, each as often as the other, have the same
/// signature.
pub proof fn lemma_signature_ignores_order(first: Seq<LabelText>, second: Seq<LabelText>)
    requires
        first.to_multiset() == second.to_multiset(),
    ensures
        signature_of(first) == signature_of(second),
    decreases first.len(),
{
    first.to_multiset_ensures();
    second.to_multiset_ensures();
    if first.len() == 0 {
        assert(second.len() == 0);
    } else {
        let label = first.last();
        assert(first.contains(label)) by {
            assert(first[first.len() - 1] == label);
        }
        assert(first.to_multiset().count(label) > 0);
        assert(second.to_multiset().count(label) > 0);
        assert(second.contains(label));
        let at = choose|at: int| 0 <= at < second.len() && second[at] == label;
        let shorter = first.drop_last();
        assert(shorter =~= first.remove(first.len() - 1));
        assert(shorter.to_multiset() =~= second.remove(at).to_multiset());
        lemma_signature_ignores_order(shorter, second.remove(at));
        lemma_signature_step(first);
        lemma_signature_without(second, at);
    }
}

} // verus!

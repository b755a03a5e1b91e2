//! The layouts in which accounts are kept in durable memory, and the marker
//! that tells which one is in use.

pub mod s0;

use vstd::prelude::*;

verus! {

/// Which layout of the durable memory is authoritative.
#[derive(Clone, Copy, Debug, PartialEq, Eq, Structural)]
pub enum SchemaLabel {
    /// The whole state is one serialized blob in a managed partition.
    Blob,
    /// The accounts are stored page by page in a managed partition.
    AccountsInStableMemory,
}

/// The number of bytes of a schema marker.
pub const SCHEMA_MARKER_LEN: usize = 8;

/// The number that stands for a label in its marker.
pub open spec fn label_number(label: SchemaLabel) -> u8 {
    match label {
        SchemaLabel::Blob => 0,
        SchemaLabel::AccountsInStableMemory => 1,
    }
}

/// The marker of a label: its number as four bytes, most significant first,
/// then the complement of each of the four. Memory that was never written
/// holds zeroes, which are no marker.
pub open spec fn marker(label: SchemaLabel) -> Seq<u8> {
    seq![0u8, 0u8, 0u8, label_number(label), 255u8, 255u8, 255u8, (255 - label_number(label)) as u8]
}

/// The label whose marker `bytes` starts with, if there is one.
pub open spec fn marked(bytes: Seq<u8>) -> Option<SchemaLabel> {
    if bytes.len() >= 8 && bytes.take(8) == marker(SchemaLabel::Blob) {
        Some(SchemaLabel::Blob)
    } else if bytes.len() >= 8 && bytes.take(8) == marker(SchemaLabel::AccountsInStableMemory) {
        Some(SchemaLabel::AccountsInStableMemory)
    } else {
        None
    }
}

/// A marker, followed by anything, is read back as its label.
pub proof fn lemma_marker_round_trip(label: SchemaLabel, rest: Seq<u8>)
    ensures
        marker(label).len() == SCHEMA_MARKER_LEN,
        marked(marker(label) + rest) == Some(label),
{
    assert((marker(label) + rest).take(8) =~= marker(label));
}

impl SchemaLabel {
    /// The marker of this label.
    pub fn to_bytes(&self) -> (bytes: Vec<u8>)
        ensures
            bytes@ == marker(*self),
    {
        let number: u8 = match self {
            SchemaLabel::Blob => 0,
            SchemaLabel::AccountsInStableMemory => 1,
        };
        let check: u8 = 255 - number;
        let bytes: Vec<u8> = vec![0u8, 0u8, 0u8, number, 255u8, 255u8, 255u8, check];
        bytes
    }

    /// The label that `bytes` is marked with, or `None` where `bytes` does
    /// not start with a marker: where it is too short, never written, or
    /// damaged.
    pub fn from_bytes(bytes: &[u8]) -> (label: Option<SchemaLabel>)
        ensures
            label == marked(bytes@),
    {
        if bytes.len() < 8 {
            return None;
        }
        let framed: bool = bytes[0] == 0 && bytes[1] == 0 && bytes[2] == 0 && bytes[4] == 255
            && bytes[5] == 255 && bytes[6] == 255;
        proof {
            let head = bytes@.take(8);
            if framed && bytes[3] == 0 && bytes[7] == 255 {
                assert(head =~= marker(SchemaLabel::Blob));
            }
            if framed && bytes[3] == 1 && bytes[7] == 254 {
                assert(head =~= marker(SchemaLabel::AccountsInStableMemory));
            }
        }
        if framed && bytes[3] == 0 && bytes[7] == 255 {
            Some(SchemaLabel::Blob)
        } else if framed && bytes[3] == 1 && bytes[7] == 254 {
            Some(SchemaLabel::AccountsInStableMemory)
        } else {
            None
        }
    }
}

} // verus!

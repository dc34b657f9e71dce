//! What can go wrong while a database is pruned.
use crate::text::{decimal, decimal_text, join_texts, joined, texts};
use vstd::prelude::*;
use vstd::string::to_string_from_display_ensures;

verus! {

/// An I/O error of the row encoding; nothing inside it is read.
#[verifier::external_type_specification]
#[verifier::external_body]
pub struct ExIoError(borsh::io::Error);

/// The reasons for which pruning, copying or verifying stops.
#[derive(Debug)]
pub enum PruneError {
    /// The configured chunk size is zero.
    ChunkSizeTooSmall,
    /// The configured chunk size is above the maximum.
    ChunkSizeTooLarge,
    /// A column family to copy does not exist in the source.
    MissingInOld(String),
    /// A column family to copy does not exist in the destination.
    MissingInNew(String),
    /// A column family to fingerprint does not exist.
    Missing(String),
    /// Column families that were carried over differ; one description each.
    Mismatch(Vec<String>),
    /// The new tree refused a chunk, or could not be finished, for this reason.
    Refused(String),
    /// A node, its key or a value cannot be written as a row.
    Encode(borsh::io::Error),
    /// A row does not hold a node or a value.
    Decode(borsh::io::Error),
}

/// The text around the name of a column family that was not found.
pub open spec fn missing_text(name: Seq<char>, place: Seq<char>) -> Seq<char> {
    "column family '"@ + name + "' not found"@ + place
}

/// The text that sums up the column families that differ.
pub open spec fn mismatch_text(mismatches: Seq<Seq<char>>) -> Seq<char> {
    "pruned database does not match the source in "@ + decimal(mismatches.len())
        + " column families: "@ + joined(mismatches, "; "@)
}

fn missing_message(name: &String, place: &str) -> (text: String)
    ensures
        text@ == missing_text(name@, place@),
{
    let mut text = "column family '".to_owned();
    text.append(name.as_str());
    text.append("' not found");
    text.append(place);
    text
}

impl PruneError {
    /// Whether a text describes this error.
    pub open spec fn describes(&self, text: String) -> bool {
        match *self {
            PruneError::ChunkSizeTooSmall => text@ == "chunk_size must be at least 1"@,
            PruneError::ChunkSizeTooLarge => text@ == "chunk_size exceeds maximum of 10 million"@,
            PruneError::MissingInOld(name) => text@ == missing_text(name@, " in old database"@),
            PruneError::MissingInNew(name) => text@ == missing_text(name@, " in new database"@),
            PruneError::Missing(name) => text@ == missing_text(name@, ""@),
            PruneError::Mismatch(list) => text@ == mismatch_text(texts(list@)),
            PruneError::Refused(reason) => text@ == reason@,
            PruneError::Encode(error) => to_string_from_display_ensures(&error, text),
            PruneError::Decode(error) => to_string_from_display_ensures(&error, text),
        }
    }

    /// A description of the error.
    pub fn message(&self) -> (text: String)
        ensures
            self.describes(text),
    {
        match self {
            PruneError::ChunkSizeTooSmall => "chunk_size must be at least 1".to_owned(),
            PruneError::ChunkSizeTooLarge => "chunk_size exceeds maximum of 10 million".to_owned(),
            PruneError::MissingInOld(name) => missing_message(name, " in old database"),
            PruneError::MissingInNew(name) => missing_message(name, " in new database"),
            PruneError::Missing(name) => missing_message(name, ""),
            PruneError::Mismatch(list) => {
                let mut text = "pruned database does not match the source in ".to_owned();
                text.append(decimal_text(list.len() as u64).as_str());
                text.append(" column families: ");
                text.append(join_texts(list.as_slice(), "; ").as_str());
                text
            },
            PruneError::Refused(reason) => reason.clone(),
            PruneError::Encode(error) => error.to_string(),
            PruneError::Decode(error) => error.to_string(),
        }
    }
}

} // verus!

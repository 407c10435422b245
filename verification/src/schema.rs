//! How a store tells its own files from files that it must not touch.

use crate::text::{decimal, decimal_text, same_text};
use vstd::prelude::*;

verus! {

/// What a store does with the metadata that it finds.
#[derive(Clone, Copy, Debug, PartialEq, Eq, Structural)]
pub enum SchemaDecision {
    /// The store is new: its marker and version are to be written.
    Initialize,
    /// The store is one of ours, in a version that is known.
    Accepted,
    /// The store existed and says nothing of what it is.
    MissingMetadata,
    /// The store is another's, or of another version.
    Mismatch,
}

/// What each row of metadata says.
pub open spec fn metadata_view(metadata: Seq<(String, String)>) -> Seq<(Seq<char>, Seq<char>)> {
    Seq::new(metadata.len(), |i: int| (metadata[i].0@, metadata[i].1@))
}

/// The metadata of a store, by key.
pub open spec fn expected_metadata(marker: Seq<char>, version: u32) -> Seq<(Seq<char>, Seq<char>)> {
    seq![("schema_marker"@, marker), ("schema_version"@, decimal(version as nat))]
}

/// What a store does with the metadata that it finds: an empty one is filled only when the store
/// did not exist before, and any other must be exactly its own.
pub open spec fn schema_decision(
    metadata: Seq<(Seq<char>, Seq<char>)>,
    existed: bool,
    marker: Seq<char>,
    version: u32,
) -> SchemaDecision {
    if metadata.len() == 0 {
        if existed {
            SchemaDecision::MissingMetadata
        } else {
            SchemaDecision::Initialize
        }
    } else if metadata == expected_metadata(marker, version) {
        SchemaDecision::Accepted
    } else {
        SchemaDecision::Mismatch
    }
}

/// Decides what to do with the metadata of a store, listed by key.
pub fn check_schema(
    metadata: &Vec<(String, String)>,
    existed: bool,
    marker: &str,
    version: u32,
) -> (r: SchemaDecision)
    ensures
        r == schema_decision(metadata_view(metadata@), existed, marker@, version),
{
    if metadata.len() == 0 {
        return if existed {
            SchemaDecision::MissingMetadata
        } else {
            SchemaDecision::Initialize
        };
    }
    let number = decimal_text(version as u64);
    let ghost found = metadata_view(metadata@);
    let ghost expected = expected_metadata(marker@, version);
    if metadata.len() != 2 {
        assert(found.len() != expected.len());
        return SchemaDecision::Mismatch;
    }
    proof {
        assert(found[0] == (metadata@[0].0@, metadata@[0].1@));
        assert(found[1] == (metadata@[1].0@, metadata@[1].1@));
    }
    if same_text(metadata[0].0.as_str(), "schema_marker") && same_text(
        metadata[0].1.as_str(),
        marker,
    ) && same_text(metadata[1].0.as_str(), "schema_version") && same_text(
        metadata[1].1.as_str(),
        number.as_str(),
    ) {
        assert(found =~= expected);
        SchemaDecision::Accepted
    } else {
        assert(found[0] != expected[0] || found[1] != expected[1]);
        SchemaDecision::Mismatch
    }
}

/// What a store writes when it is new is accepted when it is opened again, and by no store of
/// another marker.
pub proof fn law_initialized_stores_are_accepted(
    marker: Seq<char>,
    version: u32,
    existed: bool,
    other: Seq<char>,
)
    ensures
        schema_decision(expected_metadata(marker, version), existed, marker, version)
            == SchemaDecision::Accepted,
        other != marker ==> schema_decision(
            expected_metadata(marker, version),
            existed,
            other,
            version,
        ) == SchemaDecision::Mismatch,
{
    if other != marker {
        assert(expected_metadata(marker, version)[0].1 != expected_metadata(other, version)[0].1);
    }
}

/// A store is initialized exactly where it says nothing and did not exist before, and accepted
/// exactly where it says its marker and its version and nothing else. A store that existed is never
/// initialized over.
pub proof fn law_stores_are_taken_for_what_they_say(
    metadata: Seq<(Seq<char>, Seq<char>)>,
    existed: bool,
    marker: Seq<char>,
    version: u32,
)
    ensures
        ({
            let decision = schema_decision(metadata, existed, marker, version);
            &&& decision is Initialize <==> metadata.len() == 0 && !existed
            &&& decision is MissingMetadata <==> metadata.len() == 0 && existed
            &&& decision is Accepted <==> metadata.len() == 2 && metadata[0] == (
                "schema_marker"@,
                marker,
            ) && metadata[1] == ("schema_version"@, decimal(version as nat))
        }),
{
    let wanted = expected_metadata(marker, version);
    if metadata.len() == 2 && metadata[0] == wanted[0] && metadata[1] == wanted[1] {
        assert(metadata =~= wanted);
    }
}

} // verus!

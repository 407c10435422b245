//! The names of the files that a runtime keeps of its sessions.

use crate::digest::{bytes_of, sha256_hex, sha256_hex_text};
use crate::session::SessionId;
use vstd::prelude::*;
use vstd::utf8::encode_utf8;

verus! {

/// The name of the file that an identity is kept under: the digest of the identity and a suffix.
pub open spec fn file_name(identity: Seq<char>, suffix: Seq<char>) -> Seq<char> {
    sha256_hex(encode_utf8(identity)) + suffix
}

fn named_file(identity: &str, suffix: &str) -> (r: String)
    ensures
        r@ == file_name(identity@, suffix@),
{
    let bytes = bytes_of(identity);
    let mut out = sha256_hex_text(bytes.as_slice());
    out.append(suffix);
    out
}

/// The file of a session's turn ledger.
pub fn ledger_file(id: &SessionId) -> (r: String)
    ensures
        r@ == file_name(id@, ".json"@),
{
    named_file(id.as_str(), ".json")
}

/// The file of a rewind's receipt.
pub fn rewind_receipt_file(operation_id: &str) -> (r: String)
    ensures
        r@ == file_name(operation_id@, ".json"@),
{
    named_file(operation_id, ".json")
}

/// The file of a rewind's intent.
pub fn rewind_intent_file(operation_id: &str) -> (r: String)
    ensures
        r@ == file_name(operation_id@, ".intent.json"@),
{
    named_file(operation_id, ".intent.json")
}

/// The intent and the receipt of a rewind are kept in two files.
pub proof fn law_intents_and_receipts_lie_apart(operation_id: Seq<char>)
    ensures
        file_name(operation_id, ".json"@) != file_name(operation_id, ".intent.json"@),
{
    reveal_strlit(".json");
    reveal_strlit(".intent.json");
    assert(file_name(operation_id, ".json"@).len() != file_name(operation_id, ".intent.json"@).len());
}

} // verus!

//! How the answers of an authority are written out in the words of a refusal.

use crate::activation::book::grant_views;
use crate::activation::{ActivationClaim, ActivationGrant, ClaimView, GrantView};
use crate::text::{debug_quoted, decimal, push_decimal, quoted};
use vstd::prelude::*;

verus! {

/// Bytes as numbers, with commas between them.
pub open spec fn comma_bytes(bytes: Seq<u8>) -> Seq<char>
    decreases bytes.len(),
{
    if bytes.len() == 0 {
        Seq::empty()
    } else if bytes.len() == 1 {
        decimal(bytes[0] as nat)
    } else {
        comma_bytes(bytes.drop_last()) + ", "@ + decimal(bytes.last() as nat)
    }
}

/// The quoted identities of grants, with commas between them.
pub open spec fn comma_ids(grants: Seq<GrantView>) -> Seq<char>
    decreases grants.len(),
{
    if grants.len() == 0 {
        Seq::empty()
    } else if grants.len() == 1 {
        debug_quoted(grants[0].item_id)
    } else {
        comma_ids(grants.drop_last()) + ", "@ + debug_quoted(grants.last().item_id)
    }
}

/// A grant, written out.
pub open spec fn grant_words(g: GrantView) -> Seq<char> {
    "ActivationGrant { item_id: ActivationItemId("@ + debug_quoted(g.item_id)
        + "), worker_id: ActivationWorkerId("@ + debug_quoted(g.worker_id)
        + "), token: ActivationFencingToken("@ + decimal(g.token as nat) + "), due_at_ms: "@
        + decimal(g.due_at_ms as nat) + ", expires_at_ms: "@ + decimal(g.expires_at_ms as nat)
        + ", attempt: "@ + decimal(g.attempt as nat) + ", payload: ["@ + comma_bytes(g.payload)
        + "] }"@
}

/// A claim's answer, written out.
pub open spec fn claim_words(c: ClaimView) -> Seq<char> {
    match c {
        ClaimView::Granted(g) => "Granted("@ + grant_words(g) + ")"@,
        ClaimView::Held { worker_id, expires_at_ms } => "Held { worker_id: ActivationWorkerId("@
            + debug_quoted(worker_id) + "), expires_at_ms: "@ + decimal(expires_at_ms as nat)
            + " }"@,
        ClaimView::NotDue { due_at_ms } => "NotDue { due_at_ms: "@ + decimal(due_at_ms as nat)
            + " }"@,
        ClaimView::Settled => "Settled"@,
        ClaimView::Unknown => "Unknown"@,
    }
}

fn show_bytes(bytes: &Vec<u8>) -> (r: String)
    ensures
        r@ == comma_bytes(bytes@),
{
    let mut out = String::new();
    let mut i: usize = 0;
    assert(bytes@.take(0) =~= Seq::empty());
    while i < bytes.len()
        invariant
            i <= bytes@.len(),
            out@ == comma_bytes(bytes@.take(i as int)),
        decreases bytes@.len() - i,
    {
        proof {
            assert(bytes@.take(i + 1).drop_last() =~= bytes@.take(i as int));
            if i == 0 {
                assert(Seq::<char>::empty() + decimal(bytes@[0] as nat) =~= decimal(
                    bytes@[0] as nat,
                ));
            }
        }
        if i > 0 {
            out.append(", ");
        }
        push_decimal(&mut out, bytes[i] as u64);
        i += 1;
    }
    assert(bytes@.take(bytes@.len() as int) =~= bytes@);
    out
}

/// Writes out the identities of grants.
pub fn show_ids(grants: &Vec<ActivationGrant>) -> (r: String)
    ensures
        r@ == comma_ids(grant_views(grants@)),
{
    let ghost all = grant_views(grants@);
    let mut out = String::new();
    let mut i: usize = 0;
    assert(all.take(0) =~= Seq::empty());
    while i < grants.len()
        invariant
            i <= grants@.len(),
            all == grant_views(grants@),
            out@ == comma_ids(all.take(i as int)),
        decreases grants@.len() - i,
    {
        proof {
            assert(all.take(i + 1).drop_last() =~= all.take(i as int));
            assert(all[i as int] == grants@[i as int]@);
            if i == 0 {
                let only = debug_quoted(all[0].item_id);
                assert(Seq::<char>::empty() + only =~= only);
            }
        }
        if i > 0 {
            out.append(", ");
        }
        out.append(quoted(grants[i].item_id().as_str()).as_str());
        i += 1;
    }
    assert(all.take(all.len() as int) =~= all);
    out
}

fn show_grant(g: &ActivationGrant) -> (r: String)
    ensures
        r@ == grant_words(g@),
{
    let mut out = "ActivationGrant { item_id: ActivationItemId(".to_owned();
    out.append(quoted(g.item_id().as_str()).as_str());
    out.append("), worker_id: ActivationWorkerId(");
    out.append(quoted(g.worker_id().as_str()).as_str());
    out.append("), token: ActivationFencingToken(");
    push_decimal(&mut out, g.token().get());
    out.append("), due_at_ms: ");
    push_decimal(&mut out, g.due_at_ms());
    out.append(", expires_at_ms: ");
    push_decimal(&mut out, g.expires_at_ms());
    out.append(", attempt: ");
    push_decimal(&mut out, g.attempt());
    out.append(", payload: [");
    out.append(show_bytes(g.payload()).as_str());
    out.append("] }");
    out
}

/// Writes out a claim's answer.
pub fn show_claim(claim: &ActivationClaim) -> (r: String)
    ensures
        r@ == claim_words(claim@),
{
    match claim {
        ActivationClaim::Granted(grant) => {
            let mut out = "Granted(".to_owned();
            out.append(show_grant(grant).as_str());
            out.append(")");
            out
        },
        ActivationClaim::Held { worker_id, expires_at_ms } => {
            let mut out = "Held { worker_id: ActivationWorkerId(".to_owned();
            out.append(quoted(worker_id.as_str()).as_str());
            out.append("), expires_at_ms: ");
            push_decimal(&mut out, *expires_at_ms);
            out.append(" }");
            out
        },
        ActivationClaim::NotDue { due_at_ms } => {
            let mut out = "NotDue { due_at_ms: ".to_owned();
            push_decimal(&mut out, *due_at_ms);
            out.append(" }");
            out
        },
        ActivationClaim::Settled => "Settled".to_owned(),
        ActivationClaim::Unknown => "Unknown".to_owned(),
    }
}

} // verus!

use sophon_sdk::activation::book::{ActivationBook, ActivationCoordinator};
use sophon_sdk::activation::conformance::run_activation_coordinator_conformance;
use sophon_sdk::activation::item::{as_i64, decode, ActivationRow};
use sophon_sdk::activation::{
    ActivationClaim, ActivationClaimRequest, ActivationDisposition, ActivationError,
    ActivationItemId, ActivationRenewal, ActivationSettlement, ActivationWake,
    ActivationWakeOutcome, ActivationWorkerId, MAX_ACTIVATION_LEASE_MS,
    MAX_ACTIVATION_PAYLOAD_BYTES,
};

fn item(name: &str) -> ActivationItemId {
    ActivationItemId::new(name).unwrap()
}

fn request(worker: &str, now: u64, lease: u64, limit: usize) -> ActivationClaimRequest {
    ActivationClaimRequest::new(ActivationWorkerId::new(worker).unwrap(), now, lease, limit)
        .unwrap()
}

#[test]
fn the_book_passes_the_activation_suite() {
    assert_eq!(run_activation_coordinator_conformance(&mut ActivationBook::new()), Ok(()));
}

#[test]
fn the_activation_suite_leaves_its_yielded_item_behind() {
    let mut book = ActivationBook::new();
    assert_eq!(run_activation_coordinator_conformance(&mut book), Ok(()));
    let left = book.inspect(&item("conformance.zeta")).unwrap().unwrap();
    assert_eq!(left.due_at_ms, Some(1_700_000_020_000));
    assert!(book.inspect(&item("conformance.alpha")).unwrap().is_none());
    book.wake(&ActivationWake::new(item("conformance.alpha"), 1), 1).unwrap();
    assert_eq!(
        run_activation_coordinator_conformance(&mut book),
        Err(ActivationError::Corrupt(
            "conformance: a fresh authority already knows a work item".to_string()
        ))
    );
}

#[test]
fn tokens_grow_and_superseded_workers_are_fenced() {
    let mut book = ActivationBook::new();
    assert_eq!(
        book.wake(&ActivationWake::new(item("a"), 100), 50),
        Ok(ActivationWakeOutcome::Registered)
    );
    assert_eq!(
        book.wake(&ActivationWake::new(item("a"), 100), 50),
        Ok(ActivationWakeOutcome::Unchanged)
    );
    assert!(matches!(
        book.claim_item(&item("a"), &request("w", 99, 10, 1)),
        Ok(ActivationClaim::NotDue { due_at_ms: 100 })
    ));
    let first = match book.claim_item(&item("a"), &request("w", 100, 10, 1)).unwrap() {
        ActivationClaim::Granted(grant) => grant,
        _ => panic!("due work is granted"),
    };
    assert_eq!(first.attempt(), 1);
    assert_eq!(first.expires_at_ms(), 110);
    assert!(matches!(
        book.claim_item(&item("a"), &request("v", 105, 10, 1)),
        Ok(ActivationClaim::Held { expires_at_ms: 110, .. })
    ));
    assert_eq!(
        book.renew(&first.handle(), 20, 105),
        Ok(ActivationRenewal::Renewed { expires_at_ms: 125 })
    );
    let second = match book.claim_item(&item("a"), &request("v", 125, 10, 1)).unwrap() {
        ActivationClaim::Granted(grant) => grant,
        _ => panic!("an expired lease gives way"),
    };
    assert!(second.token().get() > first.token().get());
    assert_eq!(book.renew(&first.handle(), 10, 126), Ok(ActivationRenewal::Fenced));
    assert_eq!(
        book.release(&first.handle(), ActivationDisposition::Complete, 126),
        Ok(ActivationSettlement::Fenced)
    );
    assert_eq!(
        book.release(&second.handle(), ActivationDisposition::Complete, 127),
        Ok(ActivationSettlement::Settled)
    );
    assert_eq!(
        book.release(&second.handle(), ActivationDisposition::Complete, 128),
        Ok(ActivationSettlement::AlreadySettled)
    );
    assert!(matches!(
        book.claim_item(&item("a"), &request("v", 999, 10, 1)),
        Ok(ActivationClaim::Settled)
    ));
    assert_eq!(book.purge_settled(126), Ok(0));
    assert_eq!(book.purge_settled(127), Ok(1));
    assert!(matches!(
        book.claim_item(&item("a"), &request("v", 999, 10, 1)),
        Ok(ActivationClaim::Unknown)
    ));
}

#[test]
fn sweeps_take_due_work_in_order_up_to_their_limit() {
    let mut book = ActivationBook::new();
    for (name, due) in [("c", 5), ("b", 5), ("a", 7), ("z", 1), ("later", 50)] {
        book.wake(&ActivationWake::new(item(name), due), 0).unwrap();
    }
    let taken = book.claim_due(&request("w", 10, 10, 3)).unwrap();
    let names: Vec<&str> = taken.iter().map(|grant| grant.item_id().as_str()).collect();
    assert_eq!(names, vec!["z", "b", "c"]);
    let rest = book.claim_due(&request("w", 10, 10, 3)).unwrap();
    assert_eq!(rest.len(), 1);
}

#[test]
fn yielded_work_returns_at_its_new_instant() {
    let mut book = ActivationBook::new();
    let wake = ActivationWake::new(item("a"), 0).with_payload(vec![1, 2]).unwrap();
    book.wake(&wake, 0).unwrap();
    let grant = match book.claim_item(&item("a"), &request("w", 0, 10, 1)).unwrap() {
        ActivationClaim::Granted(grant) => grant,
        _ => panic!("due work is granted"),
    };
    assert_eq!(grant.payload(), &vec![1, 2]);
    book.release(&grant.handle(), ActivationDisposition::Yield { due_at_ms: 40 }, 1).unwrap();
    let state = book.inspect(&item("a")).unwrap().unwrap();
    assert_eq!(state.due_at_ms, Some(40));
    assert!(!state.is_claimable_at(39));
    assert!(state.is_claimable_at(40));
}

#[test]
fn requests_are_bounded() {
    assert!(ActivationItemId::new("").is_err());
    assert!(ActivationItemId::new(" a").is_err());
    assert!(ActivationWorkerId::new(&"w".repeat(257)).is_err());
    let worker = || ActivationWorkerId::new("w").unwrap();
    assert!(ActivationClaimRequest::new(worker(), 0, 0, 1).is_err());
    assert!(ActivationClaimRequest::new(worker(), 0, MAX_ACTIVATION_LEASE_MS + 1, 1).is_err());
    assert!(ActivationClaimRequest::new(worker(), 0, 1, 0).is_err());
    assert!(ActivationClaimRequest::new(worker(), u64::MAX, 1, 1).is_err());
    assert!(ActivationWake::new(item("a"), 0)
        .with_payload(vec![0; MAX_ACTIVATION_PAYLOAD_BYTES + 1])
        .is_err());
    assert!(as_i64(u64::MAX).is_err());
    assert_eq!(as_i64(7), Ok(7));
}

fn row() -> ActivationRow {
    ActivationRow {
        item_id: "a".to_string(),
        due_at_ms: Some(5),
        payload: vec![1],
        payload_size: 1,
        attempt: 0,
        fencing_token: 0,
        lease_worker: None,
        lease_token: None,
        lease_expires_at_ms: None,
        settled_at_ms: None,
        settled_token: None,
    }
}

#[test]
fn stored_rows_are_checked() {
    assert_eq!(decode(row()).unwrap().to_row(), row());
    let mut negative = row();
    negative.attempt = -1;
    assert!(matches!(decode(negative), Err(ActivationError::Corrupt(_))));
    let mut short = row();
    short.payload_size = 2;
    assert!(matches!(decode(short), Err(ActivationError::Corrupt(_))));
    let mut partial = row();
    partial.lease_worker = Some("w".to_string());
    assert!(decode(partial).unwrap().lease.is_none());
}

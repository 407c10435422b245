use sophon_sdk::artifact::provenance::{
    ArtifactLabel, ArtifactMediaType, ArtifactObservation, ArtifactProvenance,
    ArtifactProvenanceKind, ArtifactRetention, ArtifactWrite, MAX_ARTIFACT_OBSERVATION_INPUTS,
};
use sophon_sdk::artifact::vault::{
    ArtifactPut, ArtifactRecovery, ArtifactShelf, ArtifactUsage, ArtifactVault,
};
use sophon_sdk::artifact::{
    check_destination, check_materialized, check_offered, ArtifactDigest, ArtifactError,
    ArtifactHandle, ArtifactId, ArtifactIntegrity,
};

const ABC: &str = "ba7816bf8f01cfea414140de5dae2223b00361a396177a9cb410ff61f20015ad";

fn label(value: &str) -> ArtifactLabel {
    ArtifactLabel::new(value).unwrap()
}

fn write() -> ArtifactWrite {
    let provenance = ArtifactProvenance::produced(
        ArtifactProvenanceKind::ProducedOutput,
        label("run"),
        1,
        label("operation"),
        5,
    )
    .unwrap();
    ArtifactWrite::new(ArtifactMediaType::octet_stream(), ArtifactRetention::Durable, provenance)
}

#[test]
fn content_is_named_by_its_digest() {
    let digest = ArtifactDigest::of(b"abc");
    assert!(digest.as_str().ends_with(ABC));
    let id = ArtifactId::for_content(b"abc");
    assert!(id.digest().same(&digest));
    assert!(ArtifactId::parse(id.as_str()).unwrap().same(&id));
    assert!(ArtifactDigest::parse(digest.as_str()).unwrap().same(&digest));
    assert!(ArtifactDigest::parse("abc").is_err());
    assert!(ArtifactId::parse("sha256-short").is_err());
    let other = ArtifactDigest::of(b"abd");
    assert!(ArtifactHandle::new(id.duplicate(), other).is_err());
    assert!(ArtifactHandle::for_content(b"abc").addresses(b"abc"));
    assert!(!ArtifactHandle::for_content(b"abc").addresses(b"abd"));
}

#[test]
fn reads_return_what_was_written() {
    let mut shelf = ArtifactShelf::new();
    let receipt = shelf.put(b"abc", &write(), 10).unwrap();
    assert_eq!(receipt.outcome, ArtifactPut::Stored);
    assert_eq!(shelf.put(b"abc", &write(), 11).unwrap().outcome, ArtifactPut::AlreadyPresent);
    assert_eq!(shelf.read(&receipt.handle, 12).unwrap(), b"abc".to_vec());
    let record = shelf.inspect(receipt.handle.id()).unwrap().unwrap();
    assert_eq!(record.size, 3);
    assert_eq!(record.written_at_ms, 10);
    let usage = shelf.usage(receipt.handle.id()).unwrap().unwrap();
    assert_eq!(usage.reads, 1);
    assert_eq!(usage.bytes_served, 3);
    assert_eq!(usage.last_used_at_ms, Some(12));
    let absent = ArtifactHandle::for_content(b"none");
    assert!(matches!(shelf.read(&absent, 13), Err(ArtifactError::Missing(_))));
    assert_eq!(shelf.verify(absent.id()), Ok(ArtifactIntegrity::Missing));
}

#[test]
fn damage_is_found_and_recovery_restores_the_content() {
    let mut shelf = ArtifactShelf::new();
    let handle = shelf.put(b"abc", &write(), 10).unwrap().handle;
    assert_eq!(shelf.verify(handle.id()), Ok(ArtifactIntegrity::Intact));
    shelf.damage(handle.id(), b"abX");
    assert_eq!(shelf.verify(handle.id()), Ok(ArtifactIntegrity::Corrupt));
    assert!(matches!(shelf.read(&handle, 11), Err(ArtifactError::Corrupt(_))));
    assert!(shelf.recover(handle.id(), b"other", 12).is_err());
    assert_eq!(shelf.recover(handle.id(), b"abc", 12), Ok(ArtifactRecovery::Restored));
    assert_eq!(shelf.recover(handle.id(), b"abc", 13), Ok(ArtifactRecovery::AlreadyIntact));
    assert_eq!(shelf.read(&handle, 14).unwrap(), b"abc".to_vec());
    let record = shelf.inspect(handle.id()).unwrap().unwrap();
    assert_eq!(record.recovered_at_ms, Some(12));
    assert_eq!(record.written_at_ms, 10);
}

#[test]
fn writes_are_held_to_their_declared_identity() {
    assert!(write().expect_identity(ArtifactId::for_content(b"abc")).validate_for(b"abc").is_ok());
    assert!(write().expect_identity(ArtifactId::for_content(b"abc")).validate_for(b"abd").is_err());
    assert!(check_offered(b"abc", &ArtifactDigest::of(b"abc")).is_ok());
    assert!(check_offered(b"abd", &ArtifactDigest::of(b"abc")).is_err());
    assert_eq!(check_materialized(b"abc", &ArtifactDigest::of(b"abc")), Ok(3));
    assert!(check_materialized(b"abd", &ArtifactDigest::of(b"abc")).is_err());
    assert!(check_destination(true, false).is_ok());
    assert!(check_destination(false, false).is_err());
    assert!(check_destination(true, true).is_err());
}

#[test]
fn provenance_is_complete() {
    assert!(ArtifactLabel::new("").is_err());
    assert!(ArtifactLabel::new("a\nb").is_err());
    assert!(ArtifactMediaType::new("text/plain").is_ok());
    assert!(ArtifactMediaType::new("text").is_err());
    assert!(ArtifactProvenance::produced(
        ArtifactProvenanceKind::InstrumentObservation,
        label("run"),
        0,
        label("operation"),
        0,
    )
    .is_err());
    let mut observation = ArtifactObservation::new(label("program"), label("r1"));
    for n in 0..MAX_ARTIFACT_OBSERVATION_INPUTS {
        observation = observation.input(ArtifactId::for_content(format!("{n}").as_bytes())).unwrap();
    }
    assert_eq!(observation.inputs().len(), MAX_ARTIFACT_OBSERVATION_INPUTS);
    assert!(ArtifactProvenance::observed(label("run"), 0, label("op"), 0, observation.duplicate())
        .is_ok());
    assert!(observation.input(ArtifactId::for_content(b"one more")).is_err());
}

#[test]
fn retentions_are_read_back_from_their_names() {
    for retention in [
        ArtifactRetention::Transient,
        ArtifactRetention::WhileProducerLives,
        ArtifactRetention::Durable,
    ] {
        assert_eq!(ArtifactRetention::parse(retention.as_str()), Ok(retention));
    }
    assert!(ArtifactRetention::parse("forever").is_err());
}

#[test]
fn uses_are_counted() {
    let mut usage = ArtifactUsage::default();
    usage.record_materialization(4, 9);
    usage.record_read(3, 10);
    assert_eq!(usage.materializations, 1);
    assert_eq!(usage.reads, 1);
    assert_eq!(usage.bytes_served, 7);
    assert_eq!(usage.last_used_at_ms, Some(10));
    assert_eq!(write().retain_until(50).retain_until_ms(), Some(50));
}

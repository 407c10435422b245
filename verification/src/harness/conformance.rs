//! The conformance suite of harness snapshot stores.

use crate::conformance::{placed, walked};
use crate::harness::script::{
    addressed, contended_step, contended_words, extra, first_snapshot, flaw_unless, lemma_joined,
    opening_step, oversize_snapshot, put_name, reconciled, repeat_step, restart_step,
    rewritten_words, second_snapshot, successor_step, suite_fault, suite_step, suite_walked,
    third_snapshot,
};
use crate::harness::snapshot::{
    snapshot_bytes, HarnessContent, HarnessSnapshot, SnapshotView, MAX_HARNESS_SNAPSHOT_BYTES,
};
use crate::harness::store::{
    harness_fault, harness_put_reconciled, told, HarnessBook, HarnessCall, HarnessPut,
    HarnessStore, HarnessStoreError, HarnessStoreFault, Snapshots,
};
use crate::session_state::ConformanceOpen;
use crate::text::{is_blank, is_whitespace, same_text};
use vstd::prelude::*;

verus! {

/// An authority that a suite reaches through several handles: two that are open at a time, and
/// one that is opened when those have been given up. A lawful authority keeps its snapshots across
/// all of that.
pub trait HarnessAuthority: HarnessStore {
    /// Opens the handle of a phase. The operations that follow go through it.
    fn open(&mut self, phase: ConformanceOpen) -> (r: Result<(), HarnessStoreError>)
        ensures
            final(self).calls() == old(self).calls().push(HarnessCall::Open(phase, told(r))),
            old(self).lawful() ==> r is Ok && final(self).lawful() && final(self).snapshots()
                == old(self).snapshots(),
    ;

    /// Has the operations that follow go through a handle that is already open.
    fn through(&mut self, phase: ConformanceOpen)
        ensures
            final(self).calls() == old(self).calls().push(HarnessCall::Through(phase)),
            old(self).lawful() ==> final(self).lawful() && final(self).snapshots() == old(
                self).snapshots(),
    ;

    /// Gives up every open handle.
    fn give_up(&mut self)
        ensures
            final(self).calls() == old(self).calls().push(HarnessCall::GiveUp),
            old(self).lawful() ==> final(self).lawful() && final(self).snapshots() == old(
                self).snapshots(),
    ;
}

impl HarnessAuthority for HarnessBook {
    fn open(&mut self, phase: ConformanceOpen) -> (r: Result<(), HarnessStoreError>) {
        self.note(Ghost(HarnessCall::Open(phase, Ok(()))));
        Ok(())
    }

    fn through(&mut self, phase: ConformanceOpen) {
        self.note(Ghost(HarnessCall::Through(phase)));
    }

    fn give_up(&mut self) {
        self.note(Ghost(HarnessCall::GiveUp));
    }
}

/// An error of the suite.
fn suite_error(message: &str) -> (r: HarnessStoreError)
    ensures
        r@ == suite_fault(message@),
{
    let mut out = "conformance: ".to_owned();
    out.append(message);
    HarnessStoreError::Corrupt(out)
}

/// Refuses with a message where the condition does not hold.
fn require(condition: bool, message: &str) -> (r: Result<(), HarnessStoreError>)
    ensures
        harness_fault(r) == flaw_unless(condition, message@),
{
    if condition {
        Ok(())
    } else {
        Err(suite_error(message))
    }
}

/// The name of an answer to a write.
fn name_of(put: &HarnessPut) -> (r: &'static str)
    ensures
        r@ == put_name(*put),
{
    match put {
        HarnessPut::Stored => "Stored",
        HarnessPut::AlreadyPresent => "AlreadyPresent",
        HarnessPut::CommitUnknown => "CommitUnknown",
    }
}

/// The error of a repeated write that was no idempotent one.
fn rewritten(put: &HarnessPut) -> (r: HarnessStoreError)
    ensures
        r@ == suite_fault(rewritten_words(*put)),
{
    let mut out = "re-writing a present digest reported ".to_owned();
    out.append(name_of(put));
    out.append(
        " rather than an idempotent write; one content address is written once and never replaced",
    );
    suite_error(out.as_str())
}

/// Judges the answer to a repeated write, and tells whether the address has to be read before the
/// answer is known.
pub fn judge_repeat(put: &HarnessPut) -> (r: Result<bool, HarnessStoreError>)
    ensures
        harness_fault(r) == flaw_unless(
            *put is AlreadyPresent || *put is CommitUnknown,
            rewritten_words(*put),
        ),
        r matches Ok(open) ==> open == (*put is CommitUnknown),
{
    match put {
        HarnessPut::Stored => Err(rewritten(put)),
        HarnessPut::AlreadyPresent => Ok(false),
        HarnessPut::CommitUnknown => Ok(true),
    }
}

/// Judges one of two contended writes by what is read after it.
pub fn judge_contended(
    put: &HarnessPut,
    found: &Option<HarnessSnapshot>,
    intended: &HarnessSnapshot,
) -> (r: Result<(), HarnessStoreError>)
    ensures
        harness_fault(r) == flaw_unless(
            reconciled(*put, option_snapshot(*found), intended@),
            contended_words(*put),
        ),
{
    if harness_put_reconciled(put, found, intended) {
        Ok(())
    } else {
        let mut out = "a contended write settled as ".to_owned();
        out.append(name_of(put));
        out.append(" without the addressed content");
        Err(suite_error(out.as_str()))
    }
}

/// What an optional snapshot says.
pub open spec fn option_snapshot(s: Option<HarnessSnapshot>) -> Option<SnapshotView> {
    match s {
        Some(snapshot) => Some(snapshot@),
        None => None,
    }
}

/// A snapshot of the suite.
fn snapshot(prompt: &str, rules: Option<&str>) -> (r: Result<HarnessSnapshot, HarnessStoreError>)
    requires
        !is_blank(prompt@),
    ensures
        r matches Ok(s) && s@ == addressed(
            prompt@,
            match rules {
                Some(text) => Some(text@),
                None => None,
            },
        ),
{
    let mut content = HarnessContent::new().system_prompt(prompt);
    if let Some(text) = rules {
        content = content.rules(text);
    }
    match HarnessSnapshot::new(content) {
        Ok(made) => Ok(made),
        Err(error) => Err(HarnessStoreError::Validation(error.describe())),
    }
}

/// A text of one character, repeated.
fn repeated(c: char, count: usize) -> (r: String)
    ensures
        r@ == Seq::new(count as nat, |i: int| c),
{
    let mut out = String::new();
    let mut i: usize = 0;
    while i < count
        invariant
            i <= count,
            out@ == Seq::new(i as nat, |j: int| c),
        decreases count - i,
    {
        out.push(c);
        i += 1;
        proof {
            assert(out@ =~= Seq::new(i as nat, |j: int| c));
        }
    }
    out
}

/// Whether a load gave exactly this snapshot.
fn is_snapshot(found: &Option<HarnessSnapshot>, expected: &HarnessSnapshot) -> (r: bool)
    ensures
        r == (*found is Some && found->Some_0@ == expected@),
{
    match found {
        Some(s) => s.same(expected),
        None => false,
    }
}

/// Whether two loads gave the same.
fn same_found(a: &Option<HarnessSnapshot>, b: &Option<HarnessSnapshot>) -> (r: bool)
    ensures
        r == ((match a {
            Some(s) => Some(s@),
            None => None,
        }) == (match b {
            Some(s) => Some(s@),
            None => None,
        })),
{
    match (a, b) {
        (Some(x), Some(y)) => x.same(y),
        (None, None) => true,
        _ => false,
    }
}

/// The snapshots of the suite.
struct SuiteSnapshots {
    first: HarnessSnapshot,
    second: HarnessSnapshot,
    third: HarnessSnapshot,
    oversize: HarnessSnapshot,
}

impl SuiteSnapshots {
    /// Whether these are the snapshots that the script writes.
    spec fn scripted(&self) -> bool {
        &&& self.first@ == first_snapshot()
        &&& self.second@ == second_snapshot()
        &&& self.third@ == third_snapshot()
        &&& self.oversize@ == oversize_snapshot()
    }
}

/// Builds the snapshots of the suite. None of them is ever refused.
fn documents() -> (r: Result<SuiteSnapshots, HarnessStoreError>)
    ensures
        r matches Ok(made) && made.scripted(),
{
    proof {
        reveal_strlit("conformance base instructions");
        reveal_strlit("conformance contended instructions");
        assert(!is_whitespace("conformance base instructions"@[0]));
        assert(!is_whitespace("conformance contended instructions"@[0]));
    }
    let first = snapshot("conformance base instructions", Some("conformance rules"))?;
    let second = snapshot("conformance base instructions", None)?;
    let half: usize = MAX_HARNESS_SNAPSHOT_BYTES / 2;
    let long_prompt = repeated('o', half);
    let long_rules = repeated('r', half);
    assert(!is_whitespace(long_prompt@[0]));
    let oversize = snapshot(long_prompt.as_str(), Some(long_rules.as_str()))?;
    assert(oversize@ == oversize_snapshot());
    let third = snapshot("conformance contended instructions", Some("contended rules"))?;
    Ok(SuiteSnapshots { first, second, third, oversize })
}

/// Whether nothing stands against the suite's own snapshots: they are told apart by their
/// addresses, and each can be written but the one that is meant to be over the bound.
pub open spec fn suite_is_sound() -> bool {
    let a = first_snapshot().digest;
    let b = second_snapshot().digest;
    let c = third_snapshot().digest;
    let d = oversize_snapshot().digest;
    &&& a != b && a != c && a != d && b != c && b != d && c != d
    &&& snapshot_bytes(first_snapshot()) is Ok
    &&& snapshot_bytes(second_snapshot()) is Ok
    &&& snapshot_bytes(third_snapshot()) is Ok
    &&& snapshot_bytes(oversize_snapshot()) is Err
}

/// The refusal of an authority that already holds the suite's first snapshot.
pub open spec fn not_fresh() -> HarnessStoreFault {
    HarnessStoreFault::Corrupt("conformance: "@ + "fresh authority is not empty"@)
}

/// What is stored behind the first write.
pub open spec fn after_first() -> Snapshots {
    let a = first_snapshot();
    Snapshots::empty().insert(a.digest, a)
}

/// What is stored behind the second write.
pub open spec fn after_second() -> Snapshots {
    let b = second_snapshot();
    after_first().insert(b.digest, b)
}

/// What a run of the suite leaves behind: its three snapshots.
pub open spec fn suite_remains() -> Snapshots {
    let c = third_snapshot();
    after_second().insert(c.digest, c)
}

/// The store is empty, and the first write is read back.
#[verifier::spinoff_prover]
#[verifier::rlimit(40)]
fn check_opening<A: HarnessAuthority>(authority: &mut A, made: &SuiteSnapshots) -> (r: Result<
    (),
    HarnessStoreError,
>)
    requires
        made.scripted(),
    ensures
        walked(
            |i: int|
                opening_step(final(authority).calls(), old(authority).calls().len() as int, i),
            old(authority).calls(),
            final(authority).calls(),
            6,
            harness_fault(r),
        ),
        old(authority).lawful() && old(authority).snapshots().dom().contains(
            first_snapshot().digest,
        ) && first_snapshot().digest != second_snapshot().digest ==> harness_fault(r) == Some(
            not_fresh(),
        ) && final(authority).snapshots() == old(authority).snapshots(),
        old(authority).lawful() && old(authority).snapshots() == Snapshots::empty()
            && suite_is_sound() ==> r is Ok && final(authority).lawful()
            && final(authority).snapshots() == after_first(),
{
    let ghost good = authority.lawful() && authority.snapshots() == Snapshots::empty()
        && suite_is_sound();
    authority.open(ConformanceOpen::Fresh)?;
    require(
        !same_text(made.first.digest(), made.second.digest()),
        "two different contents produced one content address",
    )?;
    let found = authority.get(made.first.digest())?;
    require(found.is_none(), "fresh authority is not empty")?;
    let held = authority.contains(made.first.digest())?;
    require(!held, "fresh authority is not empty")?;
    let put = authority.put(&made.first)?;
    require(put == HarnessPut::Stored, "the first write of a digest was not stored")?;
    let found = authority.get(made.first.digest())?;
    require(
        is_snapshot(&found, &made.first),
        "a stored snapshot did not load back exactly",
    )?;
    let held = authority.contains(made.first.digest())?;
    require(held, "a stored snapshot did not load back exactly")
}

/// Writing a present address again never changes its content.
#[verifier::spinoff_prover]
#[verifier::rlimit(40)]
fn check_repeat<A: HarnessAuthority>(authority: &mut A, made: &SuiteSnapshots) -> (r: Result<
    (),
    HarnessStoreError,
>)
    requires
        made.scripted(),
    ensures
        walked(
            |i: int|
                repeat_step(final(authority).calls(), old(authority).calls().len() as int, i),
            old(authority).calls(),
            final(authority).calls(),
            2 + extra(final(authority).calls(), old(authority).calls().len() as int),
            harness_fault(r),
        ),
        old(authority).lawful() && old(authority).snapshots() == after_first()
            && suite_is_sound() ==> r is Ok && final(authority).lawful()
            && final(authority).snapshots() == after_first(),
{
    let ghost good = authority.lawful() && authority.snapshots() == after_first()
        && suite_is_sound();
    let put = authority.put(&made.first)?;
    let open = judge_repeat(&put)?;
    if open {
        let found = authority.get(made.first.digest())?;
        if !is_snapshot(&found, &made.first) {
            return Err(rewritten(&put));
        }
    }
    let found = authority.get(made.first.digest())?;
    require(is_snapshot(&found, &made.first), "an idempotent write changed stored content")
}

/// A changed harness is another address, and a refusal stores nothing.
#[verifier::spinoff_prover]
#[verifier::rlimit(40)]
fn check_successor<A: HarnessAuthority>(authority: &mut A, made: &SuiteSnapshots) -> (r: Result<
    (),
    HarnessStoreError,
>)
    requires
        made.scripted(),
    ensures
        walked(
            |i: int|
                successor_step(final(authority).calls(), old(authority).calls().len() as int, i),
            old(authority).calls(),
            final(authority).calls(),
            5,
            harness_fault(r),
        ),
        old(authority).lawful() && old(authority).snapshots() == after_first()
            && suite_is_sound() ==> r is Ok && final(authority).lawful()
            && final(authority).snapshots() == after_second(),
{
    let ghost good = authority.lawful() && authority.snapshots() == after_first()
        && suite_is_sound();
    let put = authority.put(&made.second)?;
    require(put == HarnessPut::Stored, "a second distinct snapshot was not stored")?;
    let found = authority.get(made.first.digest())?;
    require(
        is_snapshot(&found, &made.first),
        "storing a successor snapshot disturbed an existing content address",
    )?;
    let other = authority.get(made.second.digest())?;
    require(
        is_snapshot(&other, &made.second),
        "storing a successor snapshot disturbed an existing content address",
    )?;
    let refused = authority.put(&made.oversize);
    require(refused.is_err(), "a snapshot over the published byte bound was accepted")?;
    let found = authority.get(made.oversize.digest())?;
    require(found.is_none(), "a refused oversize write left content behind")
}

/// Two handles that write the same new address both settle on the one content.
#[verifier::spinoff_prover]
#[verifier::rlimit(40)]
fn check_contended<A: HarnessAuthority>(authority: &mut A, made: &SuiteSnapshots) -> (r: Result<
    (),
    HarnessStoreError,
>)
    requires
        made.scripted(),
    ensures
        walked(
            |i: int|
                contended_step(final(authority).calls(), old(authority).calls().len() as int, i),
            old(authority).calls(),
            final(authority).calls(),
            9,
            harness_fault(r),
        ),
        old(authority).lawful() && old(authority).snapshots() == after_second()
            && suite_is_sound() ==> r is Ok && final(authority).lawful()
            && final(authority).snapshots() == suite_remains(),
{
    let ghost good = authority.lawful() && authority.snapshots() == after_second()
        && suite_is_sound();
    authority.open(ConformanceOpen::Concurrent)?;
    let found = authority.get(made.first.digest())?;
    require(
        is_snapshot(&found, &made.first),
        "a concurrent handle did not observe stored content",
    )?;
    authority.through(ConformanceOpen::Fresh);
    let one = authority.put(&made.third)?;
    authority.through(ConformanceOpen::Concurrent);
    let two = authority.put(&made.third)?;
    authority.through(ConformanceOpen::Fresh);
    let found = authority.get(made.third.digest())?;
    judge_contended(&one, &found, &made.third)?;
    let found = authority.get(made.third.digest())?;
    judge_contended(&two, &found, &made.third)?;
    require(
        !(one == HarnessPut::Stored && two == HarnessPut::Stored),
        "a contended write reported two first-time stores of one digest",
    )
}

/// Every address leads to the same content after a restart.
#[verifier::spinoff_prover]
#[verifier::rlimit(40)]
fn check_restart<A: HarnessAuthority>(authority: &mut A, made: &SuiteSnapshots) -> (r: Result<
    (),
    HarnessStoreError,
>)
    requires
        made.scripted(),
    ensures
        walked(
            |i: int|
                restart_step(final(authority).calls(), old(authority).calls().len() as int, i),
            old(authority).calls(),
            final(authority).calls(),
            11,
            harness_fault(r),
        ),
        old(authority).lawful() && old(authority).snapshots() == suite_remains()
            && suite_is_sound() ==> r is Ok && final(authority).lawful()
            && final(authority).snapshots() == suite_remains(),
{
    let ghost good = authority.lawful() && authority.snapshots() == suite_remains()
        && suite_is_sound();
    let first_before = authority.get(made.first.digest())?;
    let second_before = authority.get(made.second.digest())?;
    let third_before = authority.get(made.third.digest())?;
    authority.give_up();
    authority.open(ConformanceOpen::Reopen)?;
    let first_after = authority.get(made.first.digest())?;
    let second_after = authority.get(made.second.digest())?;
    let third_after = authority.get(made.third.digest())?;
    require(
        same_found(&first_before, &first_after) && same_found(&second_before, &second_after)
            && same_found(&third_before, &third_after),
        "stored content did not survive a restart unchanged",
    )?;
    let repeat = authority.put(&made.first)?;
    let found = authority.get(made.first.digest())?;
    require(
        harness_put_reconciled(&repeat, &found, &made.first),
        "a repeated write after restart did not settle on the addressed content",
    )?;
    let found = authority.get(made.first.digest())?;
    require(
        is_snapshot(&found, &made.first),
        "a repeated write after restart changed stored content",
    )
}

/// Runs the snapshot contract against an authority that holds nothing yet: the store is addressed
/// by content and append-only, and nothing replaces what an address leads to. Whatever the
/// authority is, the run keeps to the suite's script, and its outcome is what the script says of
/// the answers. Every lawful authority passes, unless something stands against the suite's own
/// snapshots, and is left with them; one that already holds the first of them is refused.
#[verifier::spinoff_prover]
#[verifier::rlimit(60)]
pub fn run_harness_store_conformance<A: HarnessAuthority>(authority: &mut A) -> (r: Result<
    (),
    HarnessStoreError,
>)
    ensures
        suite_walked(old(authority).calls(), final(authority).calls(), harness_fault(r)),
        old(authority).lawful() && old(authority).snapshots() == Snapshots::empty()
            && suite_is_sound() ==> r is Ok && final(authority).lawful()
            && final(authority).snapshots() == suite_remains(),
        old(authority).lawful() && old(authority).snapshots().dom().contains(
            first_snapshot().digest,
        ) && first_snapshot().digest != second_snapshot().digest ==> harness_fault(r) == Some(
            not_fresh(),
        ) && final(authority).snapshots() == old(authority).snapshots(),
{
    let ghost start = authority.calls();
    let made = documents()?;
    let ghost log = authority.calls();
    let begun = check_opening(authority, &made);
    proof {
        let now = authority.calls();
        assert forall|i: int| 0 <= i < now.len() - start.len() - 1 implies #[trigger] suite_step(
            now,
            start.len() as int,
            i,
        ) is Right by {
            assert(placed(i - (0)));
        }
        lemma_joined(start, log, now, 0, 6, harness_fault(begun));
    }
    begun?;
    let ghost log = authority.calls();
    let again = check_repeat(authority, &made);
    proof {
        let now = authority.calls();
        assert forall|i: int| 6 <= i < now.len() - start.len() - 1 implies #[trigger] suite_step(
            now,
            start.len() as int,
            i,
        ) is Right by {
            assert(placed(i - (6)));
        }
        lemma_joined(start, log, now, 6, 2 + extra(now, start.len() as int + 6), harness_fault(again));
    }
    again?;
    let ghost x = extra(authority.calls(), start.len() as int + 6);
    let ghost log = authority.calls();
    let succeeded = check_successor(authority, &made);
    proof {
        let now = authority.calls();
        assert forall|i: int| 8 + x <= i < now.len() - start.len() - 1 implies #[trigger] suite_step(
            now,
            start.len() as int,
            i,
        ) is Right by {
            assert(placed(i - (8 + x)));
        }
        lemma_joined(start, log, now, 8 + x, 5, harness_fault(succeeded));
    }
    succeeded?;
    let ghost log = authority.calls();
    let contended = check_contended(authority, &made);
    proof {
        let now = authority.calls();
        assert forall|i: int| 13 + x <= i < now.len() - start.len() - 1 implies #[trigger] suite_step(
            now,
            start.len() as int,
            i,
        ) is Right by {
            assert(placed(i - (13 + x)));
        }
        lemma_joined(start, log, now, 13 + x, 9, harness_fault(contended));
    }
    contended?;
    let ghost log = authority.calls();
    let restarted = check_restart(authority, &made);
    proof {
        let now = authority.calls();
        assert forall|i: int| 22 + x <= i < now.len() - start.len() - 1 implies #[trigger] suite_step(
            now,
            start.len() as int,
            i,
        ) is Right by {
            assert(placed(i - (22 + x)));
        }
        lemma_joined(start, log, now, 22 + x, 11, harness_fault(restarted));
    }
    restarted
}

} // verus!

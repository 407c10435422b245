//! The script of the conformance suite of harness snapshot stores: the snapshots that it writes,
//! what it asks of a store, one call at a time, and how it judges each answer.

use crate::conformance::{first_flaw, judged, refused, silent_step, Judgement};
use crate::harness::snapshot::{content_address, SnapshotView, MAX_HARNESS_SNAPSHOT_BYTES};
use crate::harness::store::{HarnessCall, HarnessPut, HarnessStoreFault};
use crate::session_state::ConformanceOpen;
use vstd::prelude::*;

verus! {

/// A fault that the suite finds.
pub open spec fn suite_fault(words: Seq<char>) -> HarnessStoreFault {
    HarnessStoreFault::Corrupt("conformance: "@ + words)
}

/// The fault of an answer that has to be good.
pub open spec fn flaw_unless(good: bool, words: Seq<char>) -> Option<HarnessStoreFault> {
    if good {
        None
    } else {
        Some(suite_fault(words))
    }
}

/// The snapshot of a content.
pub open spec fn addressed(prompt: Seq<char>, rules: Option<Seq<char>>) -> SnapshotView {
    SnapshotView { digest: content_address(prompt, rules), system_prompt: prompt, rules }
}

/// The first snapshot of the suite.
pub open spec fn first_snapshot() -> SnapshotView {
    addressed("conformance base instructions"@, Some("conformance rules"@))
}

/// The second snapshot of the suite, which lacks the first one's rules.
pub open spec fn second_snapshot() -> SnapshotView {
    addressed("conformance base instructions"@, None)
}

/// The snapshot that two handles of the suite write at once.
pub open spec fn third_snapshot() -> SnapshotView {
    addressed("conformance contended instructions"@, Some("contended rules"@))
}

/// The snapshot of the suite that is meant to be over the bound.
pub open spec fn oversize_snapshot() -> SnapshotView {
    addressed(
        Seq::new((MAX_HARNESS_SNAPSHOT_BYTES / 2) as nat, |i: int| 'o'),
        Some(Seq::new((MAX_HARNESS_SNAPSHOT_BYTES / 2) as nat, |i: int| 'r')),
    )
}

/// The name of an answer to a write.
pub open spec fn put_name(put: HarnessPut) -> Seq<char> {
    match put {
        HarnessPut::Stored => "Stored"@,
        HarnessPut::AlreadyPresent => "AlreadyPresent"@,
        HarnessPut::CommitUnknown => "CommitUnknown"@,
    }
}

pub open spec fn open_step(
    call: HarnessCall,
    phase: ConformanceOpen,
    flaw: Option<HarnessStoreFault>,
) -> Judgement<HarnessStoreFault> {
    match call {
        HarnessCall::Open(p, a) => judged(p == phase, a, flaw),
        _ => Judgement::Stray,
    }
}

pub open spec fn get_step(
    call: HarnessCall,
    digest: Seq<char>,
    flaw: Option<HarnessStoreFault>,
) -> Judgement<HarnessStoreFault> {
    match call {
        HarnessCall::Get(d, a) => judged(d == digest, a, flaw),
        _ => Judgement::Stray,
    }
}

pub open spec fn contains_step(
    call: HarnessCall,
    digest: Seq<char>,
    flaw: Option<HarnessStoreFault>,
) -> Judgement<HarnessStoreFault> {
    match call {
        HarnessCall::Contains(d, a) => judged(d == digest, a, flaw),
        _ => Judgement::Stray,
    }
}

pub open spec fn put_step(
    call: HarnessCall,
    snapshot: SnapshotView,
    flaw: Option<HarnessStoreFault>,
) -> Judgement<HarnessStoreFault> {
    match call {
        HarnessCall::Put(s, a) => judged(s == snapshot, a, flaw),
        _ => Judgement::Stray,
    }
}

/// A write that has to be refused.
pub open spec fn refused_step(
    call: HarnessCall,
    snapshot: SnapshotView,
    words: Seq<char>,
) -> Judgement<HarnessStoreFault> {
    match call {
        HarnessCall::Put(s, a) => refused(s == snapshot, a, suite_fault(words)),
        _ => Judgement::Stray,
    }
}

/// What a load was answered.
pub open spec fn found(call: HarnessCall) -> Option<SnapshotView> {
    call->Get_1->Ok_0
}

/// What a question for an address was answered.
pub open spec fn held(call: HarnessCall) -> bool {
    call->Contains_1->Ok_0
}

/// What a write was answered.
pub open spec fn put_told(call: HarnessCall) -> HarnessPut {
    call->Put_1->Ok_0
}

/// Whether a write is settled by what is read after it.
pub open spec fn reconciled(
    put: HarnessPut,
    loaded: Option<SnapshotView>,
    intended: SnapshotView,
) -> bool {
    !(put is CommitUnknown) || loaded == Some(intended)
}

/// A load that has to give exactly a snapshot.
pub open spec fn gives_step(call: HarnessCall, snapshot: SnapshotView, words: Seq<char>) -> Judgement<
    HarnessStoreFault,
> {
    get_step(call, snapshot.digest, flaw_unless(found(call) == Some(snapshot), words))
}

/// The store is empty, and the first write is read back.
pub open spec fn opening_step(log: Seq<HarnessCall>, at: int, i: int) -> Judgement<
    HarnessStoreFault,
> {
    let first = first_snapshot();
    if i == 0 {
        open_step(
            log[at],
            ConformanceOpen::Fresh,
            flaw_unless(
                first.digest != second_snapshot().digest,
                "two different contents produced one content address"@,
            ),
        )
    } else if i == 1 {
        get_step(
            log[at + 1],
            first.digest,
            flaw_unless(found(log[at + 1]) is None, "fresh authority is not empty"@),
        )
    } else if i == 2 {
        contains_step(
            log[at + 2],
            first.digest,
            flaw_unless(!held(log[at + 2]), "fresh authority is not empty"@),
        )
    } else if i == 3 {
        put_step(
            log[at + 3],
            first,
            flaw_unless(
                put_told(log[at + 3]) is Stored,
                "the first write of a digest was not stored"@,
            ),
        )
    } else if i == 4 {
        gives_step(log[at + 4], first, "a stored snapshot did not load back exactly"@)
    } else {
        contains_step(
            log[at + 5],
            first.digest,
            flaw_unless(held(log[at + 5]), "a stored snapshot did not load back exactly"@),
        )
    }
}

/// The words for a repeated write that was no idempotent one.
pub open spec fn rewritten_words(put: HarnessPut) -> Seq<char> {
    "re-writing a present digest reported "@ + put_name(put)
        + " rather than an idempotent write; one content address is written once and never replaced"@
}

/// One more call where the answer to the repeated write was left open.
pub open spec fn extra(log: Seq<HarnessCall>, at: int) -> int {
    if put_told(log[at]) is CommitUnknown {
        1
    } else {
        0
    }
}

/// Writing a present address again never changes its content.
pub open spec fn repeat_step(log: Seq<HarnessCall>, at: int, i: int) -> Judgement<
    HarnessStoreFault,
> {
    let first = first_snapshot();
    let x = extra(log, at);
    if i == 0 {
        put_step(
            log[at],
            first,
            flaw_unless(
                put_told(log[at]) is AlreadyPresent || put_told(log[at]) is CommitUnknown,
                rewritten_words(put_told(log[at])),
            ),
        )
    } else if i == x {
        gives_step(log[at + 1], first, rewritten_words(HarnessPut::CommitUnknown))
    } else {
        gives_step(log[at + 1 + x], first, "an idempotent write changed stored content"@)
    }
}

/// A changed harness is another address, and a refusal stores nothing.
pub open spec fn successor_step(log: Seq<HarnessCall>, at: int, i: int) -> Judgement<
    HarnessStoreFault,
> {
    if i == 0 {
        put_step(
            log[at],
            second_snapshot(),
            flaw_unless(
                put_told(log[at]) is Stored,
                "a second distinct snapshot was not stored"@,
            ),
        )
    } else if i == 1 {
        gives_step(
            log[at + 1],
            first_snapshot(),
            "storing a successor snapshot disturbed an existing content address"@,
        )
    } else if i == 2 {
        gives_step(
            log[at + 2],
            second_snapshot(),
            "storing a successor snapshot disturbed an existing content address"@,
        )
    } else if i == 3 {
        refused_step(
            log[at + 3],
            oversize_snapshot(),
            "a snapshot over the published byte bound was accepted"@,
        )
    } else {
        get_step(
            log[at + 4],
            oversize_snapshot().digest,
            flaw_unless(
                found(log[at + 4]) is None,
                "a refused oversize write left content behind"@,
            ),
        )
    }
}

/// The words for a contended write that left something else behind.
pub open spec fn contended_words(put: HarnessPut) -> Seq<char> {
    "a contended write settled as "@ + put_name(put) + " without the addressed content"@
}

/// Two handles that write the same new address both settle on the one content.
pub open spec fn contended_step(log: Seq<HarnessCall>, at: int, i: int) -> Judgement<
    HarnessStoreFault,
> {
    let third = third_snapshot();
    let one = put_told(log[at + 3]);
    let two = put_told(log[at + 5]);
    if i == 0 {
        open_step(log[at], ConformanceOpen::Concurrent, None)
    } else if i == 1 {
        gives_step(
            log[at + 1],
            first_snapshot(),
            "a concurrent handle did not observe stored content"@,
        )
    } else if i == 2 {
        silent_step(log[at + 2], HarnessCall::Through(ConformanceOpen::Fresh))
    } else if i == 3 {
        put_step(log[at + 3], third, None)
    } else if i == 4 {
        silent_step(log[at + 4], HarnessCall::Through(ConformanceOpen::Concurrent))
    } else if i == 5 {
        put_step(log[at + 5], third, None)
    } else if i == 6 {
        silent_step(log[at + 6], HarnessCall::Through(ConformanceOpen::Fresh))
    } else if i == 7 {
        get_step(
            log[at + 7],
            third.digest,
            flaw_unless(reconciled(one, found(log[at + 7]), third), contended_words(one)),
        )
    } else {
        get_step(
            log[at + 8],
            third.digest,
            first_flaw(
                flaw_unless(reconciled(two, found(log[at + 8]), third), contended_words(two)),
                flaw_unless(
                    !(one is Stored && two is Stored),
                    "a contended write reported two first-time stores of one digest"@,
                ),
            ),
        )
    }
}

/// Every address leads to the same content after a restart, and a repeated write is still no
/// update. The earlier handles are given up before the last one is opened.
pub open spec fn restart_step(log: Seq<HarnessCall>, at: int, i: int) -> Judgement<
    HarnessStoreFault,
> {
    let first = first_snapshot();
    if i == 0 {
        get_step(log[at], first.digest, None)
    } else if i == 1 {
        get_step(log[at + 1], second_snapshot().digest, None)
    } else if i == 2 {
        get_step(log[at + 2], third_snapshot().digest, None)
    } else if i == 3 {
        silent_step(log[at + 3], HarnessCall::GiveUp)
    } else if i == 4 {
        open_step(log[at + 4], ConformanceOpen::Reopen, None)
    } else if i == 5 {
        get_step(log[at + 5], first.digest, None)
    } else if i == 6 {
        get_step(log[at + 6], second_snapshot().digest, None)
    } else if i == 7 {
        get_step(
            log[at + 7],
            third_snapshot().digest,
            flaw_unless(
                found(log[at]) == found(log[at + 5]) && found(log[at + 1]) == found(log[at + 6])
                    && found(log[at + 2]) == found(log[at + 7]),
                "stored content did not survive a restart unchanged"@,
            ),
        )
    } else if i == 8 {
        put_step(log[at + 8], first, None)
    } else if i == 9 {
        get_step(
            log[at + 9],
            first.digest,
            flaw_unless(
                reconciled(put_told(log[at + 8]), found(log[at + 9]), first),
                "a repeated write after restart did not settle on the addressed content"@,
            ),
        )
    } else {
        gives_step(
            log[at + 10],
            first,
            "a repeated write after restart changed stored content"@,
        )
    }
}

/// The whole script: how the call at position `i` stands to it.
pub open spec fn suite_step(log: Seq<HarnessCall>, at: int, i: int) -> Judgement<
    HarnessStoreFault,
> {
    let x = extra(log, at + 6);
    if i < 6 {
        opening_step(log, at, i)
    } else if i < 8 + x {
        repeat_step(log, at + 6, i - 6)
    } else if i < 13 + x {
        successor_step(log, at + 8 + x, i - 8 - x)
    } else if i < 22 + x {
        contended_step(log, at + 13 + x, i - 13 - x)
    } else {
        restart_step(log, at + 22 + x, i - 22 - x)
    }
}

/// The number of calls that the script asks for.
pub open spec fn script_len(log: Seq<HarnessCall>, at: int) -> int {
    33 + extra(log, at + 6)
}

/// Whether what was asked between two moments keeps to the suite's script: every call is the one
/// that the script asks for, every answer but the last is right, and the outcome is success where
/// the whole script was gone through, or else the fault of the last answer.
pub open spec fn suite_walked(
    before: Seq<HarnessCall>,
    after: Seq<HarnessCall>,
    outcome: Option<HarnessStoreFault>,
) -> bool {
    let at = before.len() as int;
    let made = after.len() - at;
    &&& before.is_prefix_of(after)
    &&& forall|i: int| 0 <= i < made - 1 ==> #[trigger] suite_step(after, at, i) is Right
    &&& match outcome {
        None => made == script_len(after, at) && suite_step(after, at, made - 1) is Right,
        Some(e) => 0 < made <= script_len(after, at) && suite_step(after, at, made - 1)
            == Judgement::Wrong(e),
    }
}

/// Whether the first `k` calls of the script were made, and all of them answered rightly.
pub open spec fn upheld(before: Seq<HarnessCall>, log: Seq<HarnessCall>, k: int) -> bool {
    &&& before.is_prefix_of(log)
    &&& log.len() == before.len() + k
    &&& forall|i: int| 0 <= i < k ==> #[trigger] suite_step(log, before.len() as int, i) is Right
}

/// How a call stands to the script depends on what came before it alone.
#[verifier::spinoff_prover]
#[verifier::rlimit(40)]
proof fn lemma_step_stands(log: Seq<HarnessCall>, now: Seq<HarnessCall>, at: int, i: int)
    requires
        log.is_prefix_of(now),
        0 <= at,
        0 <= i,
        at + i < log.len(),
    ensures
        suite_step(now, at, i) == suite_step(log, at, i),
{
    assert forall|j: int| 0 <= j < log.len() implies now[j] == log[j] by {}
    if i >= 6 {
        assert(extra(now, at + 6) == extra(log, at + 6));
    }
}

/// One part of the script behind what was upheld so far.
pub proof fn lemma_joined(
    before: Seq<HarnessCall>,
    log: Seq<HarnessCall>,
    now: Seq<HarnessCall>,
    k: int,
    n: int,
    outcome: Option<HarnessStoreFault>,
)
    requires
        0 <= k,
        0 < n,
        k + n <= script_len(now, before.len() as int),
        upheld(before, log, k),
        log.is_prefix_of(now),
        forall|i: int|
            k <= i < now.len() - before.len() - 1 ==> #[trigger] suite_step(
                now,
                before.len() as int,
                i,
            ) is Right,
        match outcome {
            None => now.len() == log.len() + n && suite_step(now, before.len() as int, k + n - 1)
                is Right,
            Some(e) => log.len() < now.len() <= log.len() + n && suite_step(
                now,
                before.len() as int,
                now.len() - before.len() - 1,
            ) == Judgement::Wrong(e),
        },
    ensures
        outcome is None ==> upheld(before, now, k + n),
        outcome is Some || k + n == script_len(now, before.len() as int) ==> suite_walked(
            before,
            now,
            outcome,
        ),
{
    let at = before.len() as int;
    assert forall|i: int| 0 <= i < now.len() - at - 1 implies #[trigger] suite_step(now, at, i)
        is Right by {
        if i < k {
            lemma_step_stands(log, now, at, i);
            assert(suite_step(log, at, i) is Right);
        }
    }
}

/// A run of the suite opens one handle for each phase and no more: the fresh one, the concurrent
/// one, and, once both have been given up, the reopened one. A refused opening ends the run with
/// its own fault, so that nothing is opened after it; a run that succeeds has opened all three.
#[verifier::spinoff_prover]
#[verifier::rlimit(40)]
pub proof fn law_suite_opens_each_phase_once(
    before: Seq<HarnessCall>,
    after: Seq<HarnessCall>,
    outcome: Option<HarnessStoreFault>,
)
    requires
        suite_walked(before, after, outcome),
    ensures
        ({
            let at = before.len() as int;
            let x = extra(after, at + 6);
            &&& forall|i: int|
                at <= i < after.len() && (#[trigger] after[i]) is Open ==> {
                    &&& i == at ==> after[i]->Open_0 is Fresh
                    &&& i == at + 13 + x ==> after[i]->Open_0 is Concurrent
                    &&& i == at + 26 + x ==> after[i]->Open_0 is Reopen && after[i - 1] is GiveUp
                    &&& i == at || i == at + 13 + x || i == at + 26 + x
                    &&& after[i]->Open_1 matches Err(e) ==> i == after.len() - 1 && outcome == Some(
                        e,
                    )
                }
            &&& outcome is None ==> after[at] is Open && after[at + 13 + x] is Open && after[at + 26
                + x] is Open
        }),
{
    let at = before.len() as int;
    let x = extra(after, at + 6);
    assert forall|i: int| at <= i < after.len() && (#[trigger] after[i]) is Open implies {
        &&& i == at ==> after[i]->Open_0 is Fresh
        &&& i == at + 13 + x ==> after[i]->Open_0 is Concurrent
        &&& i == at + 26 + x ==> after[i]->Open_0 is Reopen && after[i - 1] is GiveUp
        &&& i == at || i == at + 13 + x || i == at + 26 + x
        &&& after[i]->Open_1 matches Err(e) ==> i == after.len() - 1 && outcome == Some(e)
    } by {
        let step = suite_step(after, at, i - at);
        if i < after.len() - 1 {
            assert(step is Right);
        }
        if i == at + 26 + x {
            assert(suite_step(after, at, 25 + x) is Right);
        }
    }
    if outcome is None {
        assert(suite_step(after, at, 0) is Right);
        assert(suite_step(after, at, 13 + x) is Right);
        assert(suite_step(after, at, 26 + x) is Right);
    }
}

/// A run of the suite never succeeds where the first address led to other content at any of its
/// readings, where the write over the bound was accepted, or where two handles were both told that
/// theirs was the first write.
pub proof fn law_suite_passes_kept_content_alone(
    before: Seq<HarnessCall>,
    after: Seq<HarnessCall>,
)
    requires
        suite_walked(before, after, None),
    ensures
        ({
            let at = before.len() as int;
            let x = extra(after, at + 6);
            let first = Some(first_snapshot());
            &&& found(after[at + 4]) == first
            &&& found(after[at + 7 + x]) == first
            &&& found(after[at + 9 + x]) == first
            &&& found(after[at + 14 + x]) == first
            &&& found(after[at + 32 + x]) == first
            &&& after[at + 11 + x]->Put_1 is Err
            &&& !(put_told(after[at + 16 + x]) is Stored && put_told(after[at + 18 + x]) is Stored)
        }),
{
    let at = before.len() as int;
    let x = extra(after, at + 6);
    assert(suite_step(after, at, 4) is Right);
    assert(suite_step(after, at, 7 + x) is Right);
    assert(suite_step(after, at, 9 + x) is Right);
    assert(suite_step(after, at, 11 + x) is Right);
    assert(suite_step(after, at, 14 + x) is Right);
    assert(suite_step(after, at, 21 + x) is Right);
    assert(suite_step(after, at, 32 + x) is Right);
}

} // verus!

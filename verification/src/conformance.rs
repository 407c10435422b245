//! What the conformance suites share: a suite follows a script, and every call that it makes is
//! judged by the script.

use vstd::prelude::*;

verus! {

/// How one call stands to a script: it is not the one that the script asks for, its answer is
/// wrong, or its answer is right.
pub enum Judgement<E> {
    Stray,
    Wrong(E),
    Right,
}

/// The first of two faults.
pub open spec fn first_flaw<E>(a: Option<E>, b: Option<E>) -> Option<E> {
    if a is Some {
        a
    } else {
        b
    }
}

/// Judges an answer. One that is a fault is handed on as it is.
pub open spec fn judged<T, E>(asked: bool, answer: Result<T, E>, flaw: Option<E>) -> Judgement<E> {
    if !asked {
        Judgement::Stray
    } else {
        match answer {
            Err(e) => Judgement::Wrong(e),
            Ok(_) => match flaw {
                Some(e) => Judgement::Wrong(e),
                None => Judgement::Right,
            },
        }
    }
}

/// A call that has no answer.
pub open spec fn silent_step<C, E>(call: C, expected: C) -> Judgement<E> {
    if call == expected {
        Judgement::Right
    } else {
        Judgement::Stray
    }
}

/// An answer that has to be a refusal.
pub open spec fn refused<T, E>(asked: bool, answer: Result<T, E>, flaw: E) -> Judgement<E> {
    if !asked {
        Judgement::Stray
    } else if answer is Err {
        Judgement::Right
    } else {
        Judgement::Wrong(flaw)
    }
}

/// Marks a position of a script.
pub open spec fn placed(i: int) -> bool {
    true
}

/// Whether what was asked between two moments keeps to a script of `n` calls: every call is the
/// one that the script asks for, every answer but the last is right, and the outcome is success
/// where all `n` are, or else the fault of the last.
pub open spec fn walked<C, E>(
    step: spec_fn(int) -> Judgement<E>,
    before: Seq<C>,
    after: Seq<C>,
    n: int,
    outcome: Option<E>,
) -> bool {
    let made = after.len() - before.len();
    &&& before.is_prefix_of(after)
    &&& forall|i: int| 0 <= i < made - 1 && #[trigger] placed(i) ==> step(i) is Right
    &&& match outcome {
        None => made == n && step(n - 1) is Right,
        Some(e) => 0 < made <= n && step(made - 1) == Judgement::Wrong(e),
    }
}

} // verus!

//! Sessions: identities, turn ledgers, rewinds, journals, model routes and the events they emit.

pub mod course;
pub mod evidence;
pub mod files;
pub mod journal;
pub mod ledger;
pub mod lifecycle;
pub mod notice;
pub mod prompt;
pub mod rewind;
pub mod route;
pub mod tool_output;

use crate::text::{decimal, optional_view, push_decimal, same_text};
use vstd::prelude::*;

verus! {

/// The opaque identifier of a session.
#[derive(Clone, Debug, PartialEq, Eq, Hash)]
pub struct SessionId(pub String);

impl View for SessionId {
    type V = Seq<char>;

    open spec fn view(&self) -> Seq<char> {
        self.0@
    }
}

impl SessionId {
    /// Restores an identifier that the host has stored. The identifier is not interpreted.
    pub fn from_stored(value: &str) -> (r: SessionId)
        ensures
            r@ == value@,
    {
        SessionId(value.to_owned())
    }

    pub fn as_str(&self) -> (r: &str)
        ensures
            r@ == self@,
    {
        self.0.as_str()
    }

    /// A second copy of the identifier.
    pub fn duplicate(&self) -> (r: SessionId)
        ensures
            r@ == self@,
    {
        SessionId(self.0.clone())
    }

    /// Whether two identifiers are the same.
    pub fn same(&self, other: &SessionId) -> (r: bool)
        ensures
            r == (self@ == other@),
    {
        same_text(self.0.as_str(), other.0.as_str())
    }
}

/// Why the runtime refused something.
#[derive(Clone, Debug, PartialEq, Eq)]
pub enum Error {
    InvalidConfig(String),
    Operation(String),
    Shutdown,
    /// Events behind the cursor are no longer retained.
    EventGap { requested: u64, oldest_available: u64, newest: u64 },
    /// Durable records of one turn contradict each other.
    BindingRecordConflict(String),
}

/// What an [`Error`] says.
pub enum Fault {
    InvalidConfig(Seq<char>),
    Operation(Seq<char>),
    Shutdown,
    EventGap { requested: u64, oldest_available: u64, newest: u64 },
    BindingRecordConflict(Seq<char>),
}

impl View for Error {
    type V = Fault;

    open spec fn view(&self) -> Fault {
        match self {
            Error::InvalidConfig(m) => Fault::InvalidConfig(m@),
            Error::Operation(m) => Fault::Operation(m@),
            Error::Shutdown => Fault::Shutdown,
            Error::EventGap { requested, oldest_available, newest } => Fault::EventGap {
                requested: *requested,
                oldest_available: *oldest_available,
                newest: *newest,
            },
            Error::BindingRecordConflict(m) => Fault::BindingRecordConflict(m@),
        }
    }
}

impl Fault {
    /// The fault in words.
    pub open spec fn words(self) -> Seq<char> {
        match self {
            Fault::InvalidConfig(m) => "invalid runtime configuration: "@ + m,
            Fault::Operation(m) => "runtime operation failed: "@ + m,
            Fault::Shutdown => "runtime has shut down"@,
            Fault::EventGap { requested, oldest_available, newest } => "events after "@ + decimal(
                requested as nat,
            ) + " are no longer retained; the journal holds "@ + decimal(oldest_available as nat)
                + " to "@ + decimal(newest as nat),
            Fault::BindingRecordConflict(m) => "turn binding record conflict: "@ + m,
        }
    }
}

impl Error {
    /// The error in words.
    pub fn describe(&self) -> (r: String)
        ensures
            r@ == self@.words(),
    {
        match self {
            Error::InvalidConfig(m) => {
                let mut out = "invalid runtime configuration: ".to_owned();
                out.append(m.as_str());
                out
            },
            Error::Operation(m) => {
                let mut out = "runtime operation failed: ".to_owned();
                out.append(m.as_str());
                out
            },
            Error::Shutdown => "runtime has shut down".to_owned(),
            Error::EventGap { requested, oldest_available, newest } => {
                let mut out = "events after ".to_owned();
                push_decimal(&mut out, *requested);
                out.append(" are no longer retained; the journal holds ");
                push_decimal(&mut out, *oldest_available);
                out.append(" to ");
                push_decimal(&mut out, *newest);
                out
            },
            Error::BindingRecordConflict(m) => {
                let mut out = "turn binding record conflict: ".to_owned();
                out.append(m.as_str());
                out
            },
        }
    }
}

/// The fault that a result carries.
pub open spec fn fault<T>(r: Result<T, Error>) -> Option<Fault> {
    match r {
        Ok(_) => None,
        Err(e) => Some(e@),
    }
}

/// A failed operation.
pub fn operation(message: &str) -> (r: Error)
    ensures
        r@ == Fault::Operation(message@),
{
    Error::Operation(message.to_owned())
}

/// A refused configuration.
pub fn invalid_config(message: &str) -> (r: Error)
    ensures
        r@ == Fault::InvalidConfig(message@),
{
    Error::InvalidConfig(message.to_owned())
}

/// Refuses a session that is not loaded.
pub fn require_resident(resident: bool) -> (r: Result<(), Error>)
    ensures
        fault(r) == if resident {
            None
        } else {
            Some(Fault::Operation("session is not resident"@))
        },
{
    if resident {
        Ok(())
    } else {
        Err(operation("session is not resident"))
    }
}

/// How a turn ended.
#[derive(Clone, Copy, Debug, PartialEq, Eq, Structural)]
pub enum TurnOutcome {
    End,
    Cancelled,
    MaxTokens,
    MaxTurnRequests,
    Refusal,
}

impl TurnOutcome {
    /// The name of the outcome.
    pub open spec fn name(self) -> Seq<char> {
        match self {
            TurnOutcome::End => "End"@,
            TurnOutcome::Cancelled => "Cancelled"@,
            TurnOutcome::MaxTokens => "MaxTokens"@,
            TurnOutcome::MaxTurnRequests => "MaxTurnRequests"@,
            TurnOutcome::Refusal => "Refusal"@,
        }
    }

    pub fn as_str(self) -> (r: &'static str)
        ensures
            r@ == self.name(),
    {
        match self {
            TurnOutcome::End => "End",
            TurnOutcome::Cancelled => "Cancelled",
            TurnOutcome::MaxTokens => "MaxTokens",
            TurnOutcome::MaxTurnRequests => "MaxTurnRequests",
            TurnOutcome::Refusal => "Refusal",
        }
    }
}

/// What a prompt returns once its turn is settled.
#[derive(Debug, PartialEq, Eq)]
pub struct PromptReceipt {
    pub outcome: TurnOutcome,
    /// Every event through this sequence is retained before the prompt returns.
    pub final_sequence: u64,
    /// Position on the session's active conversation timeline.
    pub runtime_prompt_index: u64,
    /// Stable receipt of the durable turn ledger.
    pub settlement_id: String,
}

/// Provenance of the sources that a runtime was built from.
#[derive(Debug, PartialEq, Eq)]
pub struct SourceProvenance {
    pub upstream_release: String,
    pub fork_commit: String,
    pub upstream_source_rev: String,
    pub facade_version: String,
    pub dirty: bool,
}

/// The upstream release that the runtime is based on.
pub const UPSTREAM_RELEASE: &'static str = "1.0.0";

/// Whether a text is a full object id: 40 hexadecimal digits.
pub open spec fn full_commit_id(value: Seq<char>) -> bool {
    value.len() == 40 && forall|i: int|
        0 <= i < value.len() ==> crate::text::is_hex_digit(#[trigger] value[i])
}

/// Whether a text is a full object id.
pub fn full_commit(value: &str) -> (r: bool)
    ensures
        r == full_commit_id(value@),
{
    let chars = crate::text::chars_of(value);
    if chars.len() != 40 {
        return false;
    }
    let mut i: usize = 0;
    while i < chars.len()
        invariant
            i <= chars@.len(),
            chars@ == value@,
            forall|j: int| 0 <= j < i ==> crate::text::is_hex_digit(#[trigger] value@[j]),
        decreases chars@.len() - i,
    {
        if !crate::text::hex_digit(chars[i]) {
            assert(!crate::text::is_hex_digit(value@[i as int]));
            return false;
        }
        i += 1;
    }
    true
}

/// The flag that a build variable spells, when it spells one.
pub open spec fn build_flag(value: Seq<char>) -> Option<bool> {
    if value == "1"@ || value == "true"@ {
        Some(true)
    } else if value == "0"@ || value == "false"@ {
        Some(false)
    } else {
        None
    }
}

/// Reads a build variable as a flag.
pub fn env_bool(value: &str) -> (r: Option<bool>)
    ensures
        r == build_flag(value@),
{
    if same_text(value, "1") || same_text(value, "true") {
        Some(true)
    } else if same_text(value, "0") || same_text(value, "false") {
        Some(false)
    } else {
        None
    }
}

/// The commit and the state of the tree that a build is stamped with.
#[derive(Debug, PartialEq, Eq)]
pub struct BuildStamp {
    pub commit: String,
    pub dirty: bool,
}

/// What a build is stamped with, or why it is refused. What was declared goes before what the
/// checkout says, but may not contradict its commit.
pub open spec fn stamp_outcome(
    declared: Option<Seq<char>>,
    checked_out: Option<Seq<char>>,
    declared_dirty: Option<Seq<char>>,
    tree_dirty: Option<bool>,
) -> Result<(Seq<char>, bool), Seq<char>> {
    match (if declared is Some {
        declared
    } else {
        checked_out
    }) {
        None => Err("source archives must set SOPHON_SDK_COMMIT to the exact SDK fork commit"@),
        Some(commit) => if !full_commit_id(commit) || (checked_out matches Some(git)
            && !full_commit_id(git)) {
            Err("Sophon SDK fork commit must be a full Git object id"@)
        } else if checked_out matches Some(git) && git != commit {
            Err("SOPHON_SDK_COMMIT does not match the checked-out SDK fork"@)
        } else {
            match declared_dirty {
                Some(value) => match build_flag(value) {
                    Some(dirty) => Ok((commit, dirty)),
                    None => Err("SOPHON_SDK_DIRTY must be one of: 0, 1, false, true"@),
                },
                None => match tree_dirty {
                    Some(dirty) => Ok((commit, dirty)),
                    None => Err("source archives must set SOPHON_SDK_DIRTY to true or false"@),
                },
            }
        },
    }
}

/// Decides what a build is stamped with.
pub fn stamp_build(
    declared: Option<&str>,
    checked_out: Option<&str>,
    declared_dirty: Option<&str>,
    tree_dirty: Option<bool>,
) -> (r: Result<BuildStamp, String>)
    ensures
        match stamp_outcome(
            optional_view(declared),
            optional_view(checked_out),
            optional_view(declared_dirty),
            tree_dirty,
        ) {
            Ok((commit, dirty)) => r matches Ok(stamp) && stamp.commit@ == commit && stamp.dirty
                == dirty,
            Err(words) => r matches Err(e) && e@ == words,
        },
{
    let commit = match (declared, checked_out) {
        (Some(commit), _) => commit,
        (None, Some(commit)) => commit,
        (None, None) => {
            return Err(
                "source archives must set SOPHON_SDK_COMMIT to the exact SDK fork commit".to_owned(),
            );
        },
    };
    let checked = match checked_out {
        Some(git) => full_commit(git),
        None => true,
    };
    if !full_commit(commit) || !checked {
        return Err("Sophon SDK fork commit must be a full Git object id".to_owned());
    }
    let agreed = match checked_out {
        Some(git) => same_text(git, commit),
        None => true,
    };
    if !agreed {
        return Err("SOPHON_SDK_COMMIT does not match the checked-out SDK fork".to_owned());
    }
    let dirty = match declared_dirty {
        Some(value) => match env_bool(value) {
            Some(dirty) => dirty,
            None => {
                return Err("SOPHON_SDK_DIRTY must be one of: 0, 1, false, true".to_owned());
            },
        },
        None => match tree_dirty {
            Some(dirty) => dirty,
            None => {
                return Err(
                    "source archives must set SOPHON_SDK_DIRTY to true or false".to_owned(),
                );
            },
        },
    };
    Ok(BuildStamp { commit: commit.to_owned(), dirty })
}

/// The provenance of a build: what the build recorded of its commit, its upstream revision, its
/// version and whether its tree had changes.
pub fn source_provenance(
    fork_commit: &str,
    source_rev: &str,
    facade_version: &str,
    dirty: &str,
) -> (r: SourceProvenance)
    requires
        full_commit_id(fork_commit@),
        full_commit_id(crate::text::trim(source_rev@)),
        dirty@ == "true"@ || dirty@ == "false"@,
    ensures
        r.upstream_release@ == UPSTREAM_RELEASE@,
        r.fork_commit@ == fork_commit@,
        full_commit_id(r.fork_commit@),
        r.upstream_source_rev@ == crate::text::trim(source_rev@),
        full_commit_id(r.upstream_source_rev@),
        r.facade_version@ == facade_version@,
        r.dirty == (dirty@ == "true"@),
{
    SourceProvenance {
        upstream_release: UPSTREAM_RELEASE.to_owned(),
        fork_commit: fork_commit.to_owned(),
        upstream_source_rev: crate::text::trim_text(source_rev),
        facade_version: facade_version.to_owned(),
        dirty: same_text(dirty, "true"),
    }
}

/// A build is stamped exactly where its commit is known in full and is the one that is checked out,
/// if one is, and it is known whether the tree was changed. The stamp is that commit; what the
/// build declares of its tree counts before what the tree shows.
pub proof fn law_builds_are_stamped_with_their_commit(
    declared: Option<Seq<char>>,
    checked_out: Option<Seq<char>>,
    declared_dirty: Option<Seq<char>>,
    tree_dirty: Option<bool>,
)
    ensures
        ({
            let answer = stamp_outcome(declared, checked_out, declared_dirty, tree_dirty);
            let commit = if declared is Some {
                declared
            } else {
                checked_out
            };
            &&& answer matches Ok((stamp, dirty)) ==> {
                &&& commit == Some(stamp)
                &&& full_commit_id(stamp)
                &&& checked_out is Some ==> checked_out == Some(stamp)
                &&& declared_dirty is None ==> tree_dirty == Some(dirty)
                &&& declared_dirty matches Some(value) ==> (dirty <==> value == "1"@ || value
                    == "true"@) && (!dirty <==> value == "0"@ || value == "false"@)
            }
            &&& answer is Ok <==> commit is Some && full_commit_id(commit->Some_0) && (checked_out
                is Some ==> checked_out == commit) && (declared_dirty is None ==> tree_dirty
                is Some) && (declared_dirty is Some ==> declared_dirty == Some("1"@)
                || declared_dirty == Some("true"@) || declared_dirty == Some("0"@) || declared_dirty
                == Some("false"@))
        }),
{
    reveal_strlit("0");
    reveal_strlit("1");
    reveal_strlit("true");
    reveal_strlit("false");
    assert("0"@[0] == '0' && "1"@[0] == '1');
    assert("0"@.len() == 1 && "1"@.len() == 1 && "true"@.len() == 4 && "false"@.len() == 5);
}

} // verus!

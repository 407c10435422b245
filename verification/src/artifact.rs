//! Content-addressed artifact custody with provenance, usage and recovery.
//!
//! Identity is derived, never declared: the identity of an artifact is the SHA-256 of its content
//! and nothing else, so a handle can only ever name one byte sequence. Damage is reported, never
//! repaired behind the caller's back. Time is always supplied by the caller.

pub mod provenance;
pub mod vault;

use crate::digest::{sha256_hex, sha256_hex_text};
use crate::text::{chars_of, is_lower_hex, lower_hex, same_text, starts_with, strip_prefix, text_of};
use vstd::prelude::*;

verus! {

/// Largest artifact, in bytes.
pub const MAX_ARTIFACT_BYTES: usize = 16777216;

/// The algorithm that every identity is derived with. It is part of the identity.
pub const ARTIFACT_DIGEST_PREFIX: &'static str = "sha256-";

/// Why the vault refused something.
#[derive(Debug, PartialEq, Eq)]
pub enum ArtifactError {
    Validation(String),
    /// The artifact is not stored.
    Missing(String),
    Corrupt(String),
    Storage(String),
}

/// What an [`ArtifactError`] says.
pub enum ArtifactFault {
    Validation(Seq<char>),
    Missing(Seq<char>),
    Corrupt(Seq<char>),
    Storage(Seq<char>),
}

impl View for ArtifactError {
    type V = ArtifactFault;

    open spec fn view(&self) -> ArtifactFault {
        match self {
            ArtifactError::Validation(m) => ArtifactFault::Validation(m@),
            ArtifactError::Missing(m) => ArtifactFault::Missing(m@),
            ArtifactError::Corrupt(m) => ArtifactFault::Corrupt(m@),
            ArtifactError::Storage(m) => ArtifactFault::Storage(m@),
        }
    }
}

impl ArtifactFault {
    /// The fault in words.
    pub open spec fn words(self) -> Seq<char> {
        match self {
            ArtifactFault::Validation(m) => "artifact input is invalid: "@ + m,
            ArtifactFault::Missing(id) => "artifact "@ + id + " is not stored"@,
            ArtifactFault::Corrupt(m) => "stored artifact is corrupt: "@ + m,
            ArtifactFault::Storage(m) => "artifact storage failed: "@ + m,
        }
    }
}

impl ArtifactError {
    /// The error in words.
    pub fn describe(&self) -> (r: String)
        ensures
            r@ == self@.words(),
    {
        match self {
            ArtifactError::Validation(m) => {
                let mut out = "artifact input is invalid: ".to_owned();
                out.append(m.as_str());
                out
            },
            ArtifactError::Missing(id) => {
                let mut out = "artifact ".to_owned();
                out.append(id.as_str());
                out.append(" is not stored");
                out
            },
            ArtifactError::Corrupt(m) => {
                let mut out = "stored artifact is corrupt: ".to_owned();
                out.append(m.as_str());
                out
            },
            ArtifactError::Storage(m) => {
                let mut out = "artifact storage failed: ".to_owned();
                out.append(m.as_str());
                out
            },
        }
    }
}

/// The fault that a result carries.
pub open spec fn artifact_fault<T>(r: Result<T, ArtifactError>) -> Option<ArtifactFault> {
    match r {
        Ok(_) => None,
        Err(e) => Some(e@),
    }
}

/// A refused input.
pub fn validation(message: &str) -> (r: ArtifactError)
    ensures
        r@ == ArtifactFault::Validation(message@),
{
    ArtifactError::Validation(message.to_owned())
}

/// Stored state that cannot be trusted.
pub fn corrupt(message: &str) -> (r: ArtifactError)
    ensures
        r@ == ArtifactFault::Corrupt(message@),
{
    ArtifactError::Corrupt(message.to_owned())
}

/// Whether a text is a SHA-256 in lower-case hexadecimal digits.
pub open spec fn is_sha256(value: Seq<char>) -> bool {
    value.len() == 64 && forall|i: int| 0 <= i < 64 ==> is_lower_hex(#[trigger] value[i])
}

/// Whether the characters of a text from `from` on are a SHA-256.
fn lower_hex_sha256(chars: &Vec<char>, from: usize) -> (r: bool)
    requires
        from <= chars@.len(),
    ensures
        r == is_sha256(chars@.skip(from as int)),
{
    let ghost rest = chars@.skip(from as int);
    if chars.len() - from != 64 {
        return false;
    }
    let mut i: usize = from;
    while i < chars.len()
        invariant
            from <= i <= chars@.len(),
            chars@.len() == from + 64,
            rest == chars@.skip(from as int),
            forall|j: int| 0 <= j < i - from ==> is_lower_hex(#[trigger] rest[j]),
        decreases chars@.len() - i,
    {
        if !lower_hex(chars[i]) {
            assert(!is_lower_hex(rest[i - from]));
            return false;
        }
        i += 1;
    }
    true
}

/// The SHA-256 of one artifact's content, as lower-case hexadecimal digits.
#[derive(Debug, PartialEq, Eq, PartialOrd, Ord, Hash)]
pub struct ArtifactDigest(String);

impl View for ArtifactDigest {
    type V = Seq<char>;

    closed spec fn view(&self) -> Seq<char> {
        self.0@
    }
}

impl ArtifactDigest {
    #[verifier::type_invariant]
    closed spec fn is_digest(&self) -> bool {
        is_sha256(self.0@)
    }

    /// The digest of some content.
    pub fn of(content: &[u8]) -> (r: ArtifactDigest)
        ensures
            r@ == sha256_hex(content@),
            is_sha256(r@),
    {
        ArtifactDigest(sha256_hex_text(content))
    }

    /// Reads a digest that was stored.
    pub fn parse(value: &str) -> (r: Result<ArtifactDigest, ArtifactError>)
        ensures
            if is_sha256(value@) {
                r is Ok && r->Ok_0@ == value@
            } else {
                artifact_fault(r) == Some(
                    ArtifactFault::Validation(
                        "artifact digest is not a lowercase hexadecimal SHA-256"@,
                    ),
                )
            },
    {
        let chars = chars_of(value);
        proof {
            assert(chars@.skip(0) =~= value@);
        }
        if !lower_hex_sha256(&chars, 0) {
            return Err(validation("artifact digest is not a lowercase hexadecimal SHA-256"));
        }
        Ok(ArtifactDigest(value.to_owned()))
    }

    pub fn as_str(&self) -> (r: &str)
        ensures
            r@ == self@,
            is_sha256(r@),
    {
        proof {
            use_type_invariant(&*self);
        }
        self.0.as_str()
    }

    /// A second copy of the digest.
    pub fn duplicate(&self) -> (r: ArtifactDigest)
        ensures
            r@ == self@,
    {
        proof {
            use_type_invariant(&*self);
        }
        ArtifactDigest(self.0.clone())
    }

    /// Whether two digests are the same.
    pub fn same(&self, other: &ArtifactDigest) -> (r: bool)
        ensures
            r == (self@ == other@),
    {
        same_text(self.0.as_str(), other.0.as_str())
    }
}

/// The identity that a digest addresses.
pub open spec fn identity_of(digest: Seq<char>) -> Seq<char> {
    ARTIFACT_DIGEST_PREFIX@ + digest
}

/// Whether a text is a well-formed identity.
pub open spec fn is_identity(value: Seq<char>) -> bool {
    starts_with(value, ARTIFACT_DIGEST_PREFIX@) && is_sha256(
        value.skip(ARTIFACT_DIGEST_PREFIX@.len() as int),
    )
}

/// An identity is its prefix and its digest.
pub proof fn lemma_identity(value: Seq<char>)
    requires
        is_identity(value),
    ensures
        ARTIFACT_DIGEST_PREFIX@.len() == 7,
        value.len() == 71,
        value == identity_of(value.skip(7)),
{
    reveal_strlit("sha256-");
    assert(value =~= identity_of(value.skip(7)));
}

/// A digest makes a well-formed identity, and can be read from it again.
pub proof fn lemma_identity_of(digest: Seq<char>)
    requires
        is_sha256(digest),
    ensures
        is_identity(identity_of(digest)),
        identity_of(digest).skip(7) == digest,
        ARTIFACT_DIGEST_PREFIX@.len() == 7,
{
    reveal_strlit("sha256-");
    assert(identity_of(digest).skip(7) =~= digest);
    assert(identity_of(digest).take(7) =~= ARTIFACT_DIGEST_PREFIX@);
}

/// The identity of one artifact, derived from its content and nothing else.
#[derive(Debug, PartialEq, Eq, PartialOrd, Ord, Hash)]
pub struct ArtifactId(String);

impl View for ArtifactId {
    type V = Seq<char>;

    closed spec fn view(&self) -> Seq<char> {
        self.0@
    }
}

impl ArtifactId {
    #[verifier::type_invariant]
    closed spec fn is_derived(&self) -> bool {
        is_identity(self.0@)
    }

    /// Derives the identity of some content.
    pub fn for_content(content: &[u8]) -> (r: ArtifactId)
        ensures
            r@ == identity_of(sha256_hex(content@)),
            is_identity(r@),
    {
        ArtifactId::from_digest(&ArtifactDigest::of(content))
    }

    /// Derives the identity that a digest addresses, without the content.
    pub fn from_digest(digest: &ArtifactDigest) -> (r: ArtifactId)
        ensures
            r@ == identity_of(digest@),
            is_identity(r@),
    {
        let mut out = ARTIFACT_DIGEST_PREFIX.to_owned();
        out.append(digest.as_str());
        proof {
            lemma_identity_of(digest@);
        }
        ArtifactId(out)
    }

    /// Reads an identity that was stored.
    pub fn parse(value: &str) -> (r: Result<ArtifactId, ArtifactError>)
        ensures
            if is_identity(value@) {
                r is Ok && r->Ok_0@ == value@
            } else {
                artifact_fault(r) == Some(
                    ArtifactFault::Validation(
                        if !starts_with(value@, ARTIFACT_DIGEST_PREFIX@) {
                            "artifact id does not name a supported digest algorithm"@
                        } else {
                            "artifact id does not carry a lowercase hexadecimal SHA-256"@
                        },
                    ),
                )
            },
    {
        let rest = match strip_prefix(value, ARTIFACT_DIGEST_PREFIX) {
            Some(rest) => rest,
            None => {
                return Err(validation("artifact id does not name a supported digest algorithm"));
            },
        };
        let chars = chars_of(rest.as_str());
        proof {
            assert(chars@.skip(0) =~= rest@);
        }
        if !lower_hex_sha256(&chars, 0) {
            return Err(validation("artifact id does not carry a lowercase hexadecimal SHA-256"));
        }
        Ok(ArtifactId(value.to_owned()))
    }

    /// The digest that the identity was derived from.
    pub fn digest(&self) -> (r: ArtifactDigest)
        ensures
            self@ == identity_of(r@),
            is_sha256(r@),
    {
        proof {
            use_type_invariant(&*self);
            lemma_identity(self.0@);
        }
        let chars = chars_of(self.0.as_str());
        let rest = text_of(&chars, 7, 71);
        proof {
            assert(rest@ =~= self.0@.skip(7));
        }
        ArtifactDigest(rest)
    }

    pub fn as_str(&self) -> (r: &str)
        ensures
            r@ == self@,
            is_identity(r@),
    {
        proof {
            use_type_invariant(&*self);
        }
        self.0.as_str()
    }

    /// A second copy of the identity.
    pub fn duplicate(&self) -> (r: ArtifactId)
        ensures
            r@ == self@,
    {
        proof {
            use_type_invariant(&*self);
        }
        ArtifactId(self.0.clone())
    }

    /// Whether two identities are the same.
    pub fn same(&self, other: &ArtifactId) -> (r: bool)
        ensures
            r == (self@ == other@),
    {
        same_text(self.0.as_str(), other.0.as_str())
    }
}

/// An immutable name for exactly one byte sequence. A handle whose identity and digest disagree
/// does not exist.
#[derive(Debug, PartialEq, Eq, PartialOrd, Ord, Hash)]
pub struct ArtifactHandle {
    id: ArtifactId,
    digest: ArtifactDigest,
}

impl View for ArtifactHandle {
    /// The digest, which says everything.
    type V = Seq<char>;

    closed spec fn view(&self) -> Seq<char> {
        self.digest@
    }
}

impl ArtifactHandle {
    #[verifier::type_invariant]
    closed spec fn agrees(&self) -> bool {
        self.id@ == identity_of(self.digest@)
    }

    /// The handle of some content.
    pub fn for_content(content: &[u8]) -> (r: ArtifactHandle)
        ensures
            r@ == sha256_hex(content@),
            is_sha256(r@),
    {
        let digest = ArtifactDigest::of(content);
        ArtifactHandle { id: ArtifactId::from_digest(&digest), digest }
    }

    /// Rebuilds a handle that was stored. An identity and a digest that disagree are refused.
    pub fn new(id: ArtifactId, digest: ArtifactDigest) -> (r: Result<ArtifactHandle, ArtifactError>)
        ensures
            if id@ == identity_of(digest@) {
                r is Ok && r->Ok_0@ == digest@
            } else {
                artifact_fault(r) == Some(
                    ArtifactFault::Validation(
                        "artifact handle names an id and a digest that disagree"@,
                    ),
                )
            },
    {
        let addressed = ArtifactId::from_digest(&digest);
        if !id.same(&addressed) {
            return Err(validation("artifact handle names an id and a digest that disagree"));
        }
        Ok(ArtifactHandle { id, digest })
    }

    pub fn id(&self) -> (r: &ArtifactId)
        ensures
            r@ == identity_of(self@),
    {
        proof {
            use_type_invariant(&*self);
        }
        &self.id
    }

    pub fn digest(&self) -> (r: &ArtifactDigest)
        ensures
            r@ == self@,
    {
        &self.digest
    }

    /// Whether some bytes are the bytes that the handle names.
    pub fn addresses(&self, content: &[u8]) -> (r: bool)
        ensures
            r == (sha256_hex(content@) == self@),
    {
        let found = ArtifactDigest::of(content);
        found.same(&self.digest)
    }

    /// A second copy of the handle.
    pub fn duplicate(&self) -> (r: ArtifactHandle)
        ensures
            r@ == self@,
    {
        proof {
            use_type_invariant(&*self);
        }
        ArtifactHandle { id: self.id.duplicate(), digest: self.digest.duplicate() }
    }
}

/// Two digests that address the same identity are the same digest: one identity never names two
/// digests.
pub proof fn law_identities_name_one_digest(a: Seq<char>, b: Seq<char>)
    requires
        is_sha256(a),
        is_sha256(b),
        identity_of(a) == identity_of(b),
    ensures
        a == b,
{
    lemma_identity_of(a);
    lemma_identity_of(b);
}

/// Whether a stored copy is still the copy that was written.
#[derive(Clone, Copy, Debug, PartialEq, Eq, Structural)]
pub enum ArtifactIntegrity {
    Intact,
    Missing,
    /// Present, but the bytes no longer address to the identity that names them.
    Corrupt,
}

/// Refuses content that is offered for materialization and is not what its digest names.
pub fn check_offered(content: &[u8], expected: &ArtifactDigest) -> (r: Result<(), ArtifactError>)
    ensures
        artifact_fault(r) == if sha256_hex(content@) == expected@ {
            None
        } else {
            Some(
                ArtifactFault::Corrupt(
                    "content offered for materialization does not address to its digest"@,
                ),
            )
        },
{
    if ArtifactDigest::of(content).same(expected) {
        Ok(())
    } else {
        Err(corrupt("content offered for materialization does not address to its digest"))
    }
}

/// Refuses a place that is no file in a directory.
pub fn check_destination(has_parent: bool, is_symlink_or_directory: bool) -> (r: Result<
    (),
    ArtifactError,
>)
    ensures
        artifact_fault(r) == if !has_parent {
            Some(
                ArtifactFault::Validation("materialization destination has no parent directory"@),
            )
        } else if is_symlink_or_directory {
            Some(
                ArtifactFault::Validation(
                    "materialization destination is a directory or a symbolic link"@,
                ),
            )
        } else {
            None
        },
{
    if !has_parent {
        return Err(validation("materialization destination has no parent directory"));
    }
    if is_symlink_or_directory {
        return Err(validation("materialization destination is a directory or a symbolic link"));
    }
    Ok(())
}

/// Refuses a written copy that is not what its digest names, and gives its size.
pub fn check_materialized(written: &[u8], expected: &ArtifactDigest) -> (r: Result<
    u64,
    ArtifactError,
>)
    ensures
        if sha256_hex(written@) == expected@ {
            r is Ok && r->Ok_0 == written@.len()
        } else {
            artifact_fault(r) == Some(
                ArtifactFault::Corrupt("materialized copy does not address to the artifact digest"@),
            )
        },
{
    if ArtifactDigest::of(written).same(expected) {
        Ok(written.len() as u64)
    } else {
        Err(corrupt("materialized copy does not address to the artifact digest"))
    }
}

} // verus!

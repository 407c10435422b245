//! What an artifact is, who produced it, and how long it should live.

use crate::artifact::{
    artifact_fault, validation, ArtifactError, ArtifactFault, ArtifactHandle, ArtifactId,
    MAX_ARTIFACT_BYTES,
};
use crate::digest::sha256_hex;
use crate::text::{
    check_line, chars_of, debug_quoted, decimal, is_whitespace, line_fault, push_decimal, quoted,
    same_text, whitespace,
};
use vstd::prelude::*;
use vstd::utf8::{is_ascii_chars, is_ascii_chars_encode_utf8};

verus! {

/// Largest media type, in bytes.
pub const MAX_ARTIFACT_MEDIA_TYPE_BYTES: usize = 255;

/// Largest provenance label, in bytes.
pub const MAX_ARTIFACT_LABEL_BYTES: usize = 256;

/// Largest number of inputs that one observation may cite.
pub const MAX_ARTIFACT_OBSERVATION_INPUTS: usize = 64;

/// A message as a refusal.
pub open spec fn refused(message: Option<Seq<char>>) -> Option<ArtifactFault> {
    match message {
        Some(m) => Some(ArtifactFault::Validation(m)),
        None => None,
    }
}

/// The first of two faults.
pub open spec fn first_fault(
    a: Option<ArtifactFault>,
    b: Option<ArtifactFault>,
) -> Option<ArtifactFault> {
    match a {
        Some(_) => a,
        None => b,
    }
}

fn validate_label_text(label: &str, value: &str, limit: usize) -> (r: Result<(), ArtifactError>)
    ensures
        artifact_fault(r) == refused(line_fault(label@, value@, limit)),
{
    match check_line(label, value, limit) {
        Some(message) => Err(ArtifactError::Validation(message)),
        None => Ok(()),
    }
}

/// Whether a text is a type and a subtype with one slash between them, all in ASCII and without
/// whitespace.
pub open spec fn is_media_pair(value: Seq<char>) -> bool {
    exists|k: int| #[trigger] slash_splits(value, k)
}

/// Whether the slash at `k` parts a text into a type and a subtype.
pub open spec fn slash_splits(value: Seq<char>, k: int) -> bool {
    &&& 0 < k < value.len() - 1
    &&& value[k] == '/'
    &&& forall|i: int|
        0 <= i < value.len() ==> #[trigger] value[i] <= '\x7f' && !is_whitespace(value[i])
    &&& forall|i: int| 0 <= i < value.len() && i != k ==> #[trigger] value[i] != '/'
}

fn media_pair(value: &str) -> (r: bool)
    ensures
        r == is_media_pair(value@),
{
    let chars = chars_of(value);
    let mut slash: Option<usize> = None;
    let mut i: usize = 0;
    while i < chars.len()
        invariant
            i <= chars@.len(),
            chars@ == value@,
            forall|j: int|
                0 <= j < i ==> #[trigger] value@[j] <= '\x7f' && !is_whitespace(value@[j]),
            match slash {
                Some(k) => k < i && value@[k as int] == '/' && forall|j: int|
                    0 <= j < i && j != k ==> #[trigger] value@[j] != '/',
                None => forall|j: int| 0 <= j < i ==> #[trigger] value@[j] != '/',
            },
        decreases chars@.len() - i,
    {
        let c = chars[i];
        assert(value@[i as int] == c);
        if c > '\x7f' || whitespace(c) {
            return false;
        }
        if c == '/' {
            if let Some(k) = slash {
                proof {
                    assert forall|m: int| !#[trigger] slash_splits(value@, m) by {
                        assert(value@[k as int] == '/' && value@[i as int] == '/');
                    }
                }
                return false;
            }
            slash = Some(i);
        }
        i += 1;
    }
    match slash {
        Some(k) => {
            let ok = k > 0 && k + 1 < chars.len();
            proof {
                if ok {
                    assert(slash_splits(value@, k as int));
                } else {
                    assert forall|m: int| !#[trigger] slash_splits(value@, m) by {
                        assert(value@[k as int] == '/');
                    }
                }
            }
            ok
        },
        None => {
            proof {
                assert forall|m: int| !#[trigger] slash_splits(value@, m) by {
                    if 0 < m < value@.len() - 1 {
                        assert(value@[m] != '/');
                    }
                }
            }
            false
        },
    }
}

/// What is wrong with a media type.
pub open spec fn media_type_fault(value: Seq<char>) -> Option<ArtifactFault> {
    first_fault(
        refused(line_fault("artifact media type"@, value, MAX_ARTIFACT_MEDIA_TYPE_BYTES)),
        if is_media_pair(value) {
            None
        } else {
            Some(ArtifactFault::Validation("artifact media type is not a type/subtype pair"@))
        },
    )
}

/// What an artifact is, as an IANA media type.
#[derive(Debug, PartialEq, Eq, PartialOrd, Ord, Hash)]
pub struct ArtifactMediaType(String);

impl View for ArtifactMediaType {
    type V = Seq<char>;

    closed spec fn view(&self) -> Seq<char> {
        self.0@
    }
}

impl ArtifactMediaType {
    #[verifier::type_invariant]
    closed spec fn is_checked(&self) -> bool {
        media_type_fault(self.0@) is None
    }

    /// Checks a media type.
    pub fn new(value: &str) -> (r: Result<ArtifactMediaType, ArtifactError>)
        ensures
            match media_type_fault(value@) {
                None => r is Ok && r->Ok_0@ == value@,
                Some(e) => artifact_fault(r) == Some(e),
            },
    {
        validate_label_text("artifact media type", value, MAX_ARTIFACT_MEDIA_TYPE_BYTES)?;
        if !media_pair(value) {
            return Err(validation("artifact media type is not a type/subtype pair"));
        }
        Ok(ArtifactMediaType(value.to_owned()))
    }

    /// The media type of content of which nothing more is known.
    pub fn octet_stream() -> (r: ArtifactMediaType)
        ensures
            r@ == "application/octet-stream"@,
    {
        proof {
            let text = "application/octet-stream"@;
            reveal_strlit("application/octet-stream");
            assert(is_ascii_chars(text));
            is_ascii_chars_encode_utf8(text);
            assert(text[11] == '/');
            assert(slash_splits(text, 11));
            assert(media_type_fault(text) is None);
        }
        ArtifactMediaType("application/octet-stream".to_owned())
    }

    pub fn as_str(&self) -> (r: &str)
        ensures
            r@ == self@,
            media_type_fault(r@) is None,
    {
        proof {
            use_type_invariant(self);
        }
        self.0.as_str()
    }

    /// A second copy of the media type.
    pub fn duplicate(&self) -> (r: ArtifactMediaType)
        ensures
            r@ == self@,
    {
        proof {
            use_type_invariant(self);
        }
        ArtifactMediaType(self.0.clone())
    }
}

/// What is wrong with a provenance label.
pub open spec fn label_fault(value: Seq<char>) -> Option<ArtifactFault> {
    refused(line_fault("artifact provenance label"@, value, MAX_ARTIFACT_LABEL_BYTES))
}

/// A bounded line in a provenance record.
#[derive(Debug, PartialEq, Eq, PartialOrd, Ord, Hash)]
pub struct ArtifactLabel(String);

impl View for ArtifactLabel {
    type V = Seq<char>;

    closed spec fn view(&self) -> Seq<char> {
        self.0@
    }
}

impl ArtifactLabel {
    #[verifier::type_invariant]
    closed spec fn is_checked(&self) -> bool {
        label_fault(self.0@) is None
    }

    /// Checks a label.
    pub fn new(value: &str) -> (r: Result<ArtifactLabel, ArtifactError>)
        ensures
            match label_fault(value@) {
                None => r is Ok && r->Ok_0@ == value@,
                Some(e) => artifact_fault(r) == Some(e),
            },
    {
        validate_label_text("artifact provenance label", value, MAX_ARTIFACT_LABEL_BYTES)?;
        Ok(ArtifactLabel(value.to_owned()))
    }

    pub fn as_str(&self) -> (r: &str)
        ensures
            r@ == self@,
            label_fault(r@) is None,
    {
        proof {
            use_type_invariant(self);
        }
        self.0.as_str()
    }

    /// A second copy of the label.
    pub fn duplicate(&self) -> (r: ArtifactLabel)
        ensures
            r@ == self@,
    {
        proof {
            use_type_invariant(self);
        }
        ArtifactLabel(self.0.clone())
    }
}

/// Why an artifact exists.
#[non_exhaustive]
#[derive(Clone, Copy, Debug, PartialEq, Eq, PartialOrd, Ord, Hash, Structural)]
pub enum ArtifactProvenanceKind {
    /// An output that the operation was asked to produce.
    ProducedOutput,
    /// Content that the operation consumed but did not create.
    ConsumedInput,
    /// A recording of the operation itself: a log, a trace, a captured error.
    OperationRecord,
    /// A captured frame or measurement of a program execution. It is evidence about an execution
    /// and means something only together with its [`ArtifactObservation`].
    InstrumentObservation,
}

/// What an instrument observation observed: the program, the revision it ran against, and its
/// inputs.
#[derive(Debug, PartialEq, Eq)]
pub struct ArtifactObservation {
    program: ArtifactLabel,
    revision: ArtifactLabel,
    inputs: Vec<ArtifactId>,
}

/// What an [`ArtifactObservation`] says.
pub struct ObservationView {
    pub program: Seq<char>,
    pub revision: Seq<char>,
    pub inputs: Seq<Seq<char>>,
}

/// What each identity says.
pub open spec fn id_views(ids: Seq<ArtifactId>) -> Seq<Seq<char>> {
    Seq::new(ids.len(), |i: int| ids[i]@)
}

impl View for ArtifactObservation {
    type V = ObservationView;

    closed spec fn view(&self) -> ObservationView {
        ObservationView {
            program: self.program@,
            revision: self.revision@,
            inputs: id_views(self.inputs@),
        }
    }
}

/// What is wrong with an observation.
pub open spec fn observation_fault(observation: ObservationView) -> Option<ArtifactFault> {
    first_fault(
        label_fault(observation.program),
        first_fault(
            label_fault(observation.revision),
            if observation.inputs.len() > MAX_ARTIFACT_OBSERVATION_INPUTS {
                Some(ArtifactFault::Validation("an observation cites too many inputs"@))
            } else {
                None
            },
        ),
    )
}

impl ArtifactObservation {
    pub fn new(program: ArtifactLabel, revision: ArtifactLabel) -> (r: ArtifactObservation)
        ensures
            r@ == (ObservationView {
                program: program@,
                revision: revision@,
                inputs: Seq::empty(),
            }),
    {
        let r = ArtifactObservation { program, revision, inputs: Vec::new() };
        proof {
            assert(r@.inputs =~= Seq::<Seq<char>>::empty());
        }
        r
    }

    /// Cites one artifact that the observed execution ran against.
    pub fn input(self, id: ArtifactId) -> (r: Result<ArtifactObservation, ArtifactError>)
        ensures
            if self@.inputs.len() >= MAX_ARTIFACT_OBSERVATION_INPUTS {
                artifact_fault(r) == Some(
                    ArtifactFault::Validation(
                        "an observation may cite at most "@ + decimal(
                            MAX_ARTIFACT_OBSERVATION_INPUTS as nat,
                        ) + " inputs"@,
                    ),
                )
            } else {
                r is Ok && r->Ok_0@ == (ObservationView {
                    inputs: self@.inputs.push(id@),
                    ..self@
                })
            },
    {
        if self.inputs.len() >= MAX_ARTIFACT_OBSERVATION_INPUTS {
            let mut message = "an observation may cite at most ".to_owned();
            push_decimal(&mut message, MAX_ARTIFACT_OBSERVATION_INPUTS as u64);
            message.append(" inputs");
            return Err(ArtifactError::Validation(message));
        }
        let ghost before = self@;
        let ArtifactObservation { program, revision, inputs } = self;
        let mut inputs = inputs;
        inputs.push(id);
        let r = ArtifactObservation { program, revision, inputs };
        proof {
            assert(r@.inputs =~= before.inputs.push(id@));
        }
        Ok(r)
    }

    /// The program whose execution was observed.
    pub fn program(&self) -> (r: &ArtifactLabel)
        ensures
            r@ == self@.program,
    {
        &self.program
    }

    /// The revision of the observed subject.
    pub fn revision(&self) -> (r: &ArtifactLabel)
        ensures
            r@ == self@.revision,
    {
        &self.revision
    }

    pub fn inputs(&self) -> (r: &[ArtifactId])
        ensures
            id_views(r@) == self@.inputs,
    {
        self.inputs.as_slice()
    }

    /// A second copy of the observation.
    pub fn duplicate(&self) -> (r: ArtifactObservation)
        ensures
            r@ == self@,
    {
        let mut inputs: Vec<ArtifactId> = Vec::new();
        let mut i: usize = 0;
        while i < self.inputs.len()
            invariant
                i <= self.inputs@.len(),
                inputs@.len() == i,
                forall|j: int| 0 <= j < i ==> (#[trigger] inputs@[j])@ == self.inputs@[j]@,
            decreases self.inputs@.len() - i,
        {
            inputs.push(self.inputs[i].duplicate());
            i += 1;
        }
        proof {
            assert(id_views(inputs@) =~= id_views(self.inputs@));
        }
        ArtifactObservation {
            program: self.program.duplicate(),
            revision: self.revision.duplicate(),
            inputs,
        }
    }

    /// Checks an observation that was stored.
    pub fn validate(&self) -> (r: Result<(), ArtifactError>)
        ensures
            artifact_fault(r) == observation_fault(self@),
    {
        ArtifactLabel::new(self.program.as_str())?;
        ArtifactLabel::new(self.revision.as_str())?;
        if self.inputs.len() > MAX_ARTIFACT_OBSERVATION_INPUTS {
            return Err(validation("an observation cites too many inputs"));
        }
        Ok(())
    }
}

/// Who produced an artifact, and as part of what: the run, the iteration it was in, and the
/// operation that ran.
#[derive(Debug, PartialEq, Eq)]
pub struct ArtifactProvenance {
    kind: ArtifactProvenanceKind,
    producer_run: ArtifactLabel,
    iteration: u64,
    operation: ArtifactLabel,
    recorded_at_ms: u64,
    observation: Option<ArtifactObservation>,
}

/// What an [`ArtifactProvenance`] says.
pub struct ProvenanceView {
    pub kind: ArtifactProvenanceKind,
    pub producer_run: Seq<char>,
    pub iteration: u64,
    pub operation: Seq<char>,
    pub recorded_at_ms: u64,
    pub observation: Option<ObservationView>,
}

impl View for ArtifactProvenance {
    type V = ProvenanceView;

    closed spec fn view(&self) -> ProvenanceView {
        ProvenanceView {
            kind: self.kind,
            producer_run: self.producer_run@,
            iteration: self.iteration,
            operation: self.operation@,
            recorded_at_ms: self.recorded_at_ms,
            observation: match self.observation {
                Some(o) => Some(o@),
                None => None,
            },
        }
    }
}

/// What is wrong with a provenance record: its labels, or an observation that is missing, out of
/// place or itself wrong.
pub open spec fn provenance_fault(provenance: ProvenanceView) -> Option<ArtifactFault> {
    first_fault(
        label_fault(provenance.producer_run),
        first_fault(
            label_fault(provenance.operation),
            match (
                provenance.kind == ArtifactProvenanceKind::InstrumentObservation,
                provenance.observation,
            ) {
                (true, Some(observation)) => observation_fault(observation),
                (true, None) => Some(
                    ArtifactFault::Validation(
                        "an instrument observation is missing what it observed"@,
                    ),
                ),
                (false, Some(_)) => Some(
                    ArtifactFault::Validation(
                        "only an instrument observation may carry an observation"@,
                    ),
                ),
                (false, None) => None,
            },
        ),
    )
}

impl ArtifactProvenance {
    /// Provenance of content that an operation produced or consumed. An observation has its own
    /// constructor.
    pub fn produced(
        kind: ArtifactProvenanceKind,
        producer_run: ArtifactLabel,
        iteration: u64,
        operation: ArtifactLabel,
        recorded_at_ms: u64,
    ) -> (r: Result<ArtifactProvenance, ArtifactError>)
        ensures
            if kind == ArtifactProvenanceKind::InstrumentObservation {
                artifact_fault(r) == Some(
                    ArtifactFault::Validation(
                        "an instrument observation must carry what it observed"@,
                    ),
                )
            } else {
                r is Ok && r->Ok_0@ == (ProvenanceView {
                    kind,
                    producer_run: producer_run@,
                    iteration,
                    operation: operation@,
                    recorded_at_ms,
                    observation: None,
                })
            },
    {
        if kind == ArtifactProvenanceKind::InstrumentObservation {
            return Err(validation("an instrument observation must carry what it observed"));
        }
        Ok(
            ArtifactProvenance {
                kind,
                producer_run,
                iteration,
                operation,
                recorded_at_ms,
                observation: None,
            },
        )
    }

    /// Provenance of a captured frame or measurement of a program execution.
    pub fn observed(
        producer_run: ArtifactLabel,
        iteration: u64,
        operation: ArtifactLabel,
        recorded_at_ms: u64,
        observation: ArtifactObservation,
    ) -> (r: Result<ArtifactProvenance, ArtifactError>)
        ensures
            match observation_fault(observation@) {
                Some(e) => artifact_fault(r) == Some(e),
                None => r is Ok && r->Ok_0@ == (ProvenanceView {
                    kind: ArtifactProvenanceKind::InstrumentObservation,
                    producer_run: producer_run@,
                    iteration,
                    operation: operation@,
                    recorded_at_ms,
                    observation: Some(observation@),
                }),
            },
    {
        observation.validate()?;
        Ok(
            ArtifactProvenance {
                kind: ArtifactProvenanceKind::InstrumentObservation,
                producer_run,
                iteration,
                operation,
                recorded_at_ms,
                observation: Some(observation),
            },
        )
    }

    pub fn kind(&self) -> (r: ArtifactProvenanceKind)
        ensures
            r == self@.kind,
    {
        self.kind
    }

    /// The run that produced the artifact.
    pub fn producer_run(&self) -> (r: &ArtifactLabel)
        ensures
            r@ == self@.producer_run,
    {
        &self.producer_run
    }

    /// The iteration of that run.
    pub fn iteration(&self) -> (r: u64)
        ensures
            r == self@.iteration,
    {
        self.iteration
    }

    /// The operation within that iteration.
    pub fn operation(&self) -> (r: &ArtifactLabel)
        ensures
            r@ == self@.operation,
    {
        &self.operation
    }

    pub fn recorded_at_ms(&self) -> (r: u64)
        ensures
            r == self@.recorded_at_ms,
    {
        self.recorded_at_ms
    }

    /// What was observed, for an instrument observation.
    pub fn observation(&self) -> (r: Option<&ArtifactObservation>)
        ensures
            match r {
                Some(o) => self@.observation == Some(o@),
                None => self@.observation is None,
            },
    {
        match &self.observation {
            Some(o) => Some(o),
            None => None,
        }
    }

    /// Checks a record that was stored.
    pub fn validate(&self) -> (r: Result<(), ArtifactError>)
        ensures
            artifact_fault(r) == provenance_fault(self@),
    {
        ArtifactLabel::new(self.producer_run.as_str())?;
        ArtifactLabel::new(self.operation.as_str())?;
        let observes = self.kind == ArtifactProvenanceKind::InstrumentObservation;
        match &self.observation {
            Some(observation) => if observes {
                observation.validate()
            } else {
                Err(validation("only an instrument observation may carry an observation"))
            },
            None => if observes {
                Err(validation("an instrument observation is missing what it observed"))
            } else {
                Ok(())
            },
        }
    }

    /// A second copy of the record.
    pub fn duplicate(&self) -> (r: ArtifactProvenance)
        ensures
            r@ == self@,
    {
        ArtifactProvenance {
            kind: self.kind,
            producer_run: self.producer_run.duplicate(),
            iteration: self.iteration,
            operation: self.operation.duplicate(),
            recorded_at_ms: self.recorded_at_ms,
            observation: match &self.observation {
                Some(o) => Some(o.duplicate()),
                None => None,
            },
        }
    }
}

/// How long a host intends to keep an artifact. The vault stores and returns this hint and never
/// acts on it.
#[non_exhaustive]
#[derive(Clone, Copy, Debug, PartialEq, Eq, PartialOrd, Ord, Hash, Structural)]
pub enum ArtifactRetention {
    /// Droppable as soon as nothing references it.
    Transient,
    /// Keep while the producing run is live.
    WhileProducerLives,
    /// Keep until an operator policy removes it.
    Durable,
}

impl ArtifactRetention {
    pub open spec fn name(self) -> Seq<char> {
        match self {
            ArtifactRetention::Transient => "transient"@,
            ArtifactRetention::WhileProducerLives => "while_producer_lives"@,
            ArtifactRetention::Durable => "durable"@,
        }
    }

    pub fn as_str(self) -> (r: &'static str)
        ensures
            r@ == self.name(),
    {
        match self {
            ArtifactRetention::Transient => "transient",
            ArtifactRetention::WhileProducerLives => "while_producer_lives",
            ArtifactRetention::Durable => "durable",
        }
    }

    /// Reads the name of a retention.
    pub fn parse(value: &str) -> (r: Result<ArtifactRetention, ArtifactError>)
        ensures
            match retention_named(value@) {
                Some(retention) => r is Ok && r->Ok_0 == retention,
                None => artifact_fault(r) == Some(
                    ArtifactFault::Validation(
                        "unknown artifact retention "@ + debug_quoted(value@),
                    ),
                ),
            },
    {
        if same_text(value, "transient") {
            return Ok(ArtifactRetention::Transient);
        }
        if same_text(value, "while_producer_lives") {
            return Ok(ArtifactRetention::WhileProducerLives);
        }
        if same_text(value, "durable") {
            return Ok(ArtifactRetention::Durable);
        }
        let mut message = "unknown artifact retention ".to_owned();
        message.append(quoted(value).as_str());
        Err(ArtifactError::Validation(message))
    }
}

/// The retention that a name stands for.
pub open spec fn retention_named(name: Seq<char>) -> Option<ArtifactRetention> {
    if name == "transient"@ {
        Some(ArtifactRetention::Transient)
    } else if name == "while_producer_lives"@ {
        Some(ArtifactRetention::WhileProducerLives)
    } else if name == "durable"@ {
        Some(ArtifactRetention::Durable)
    } else {
        None
    }
}

/// Every retention is read back from its own name.
pub proof fn law_retention_round_trip(retention: ArtifactRetention)
    ensures
        retention_named(retention.name()) == Some(retention),
{
    reveal_strlit("transient");
    reveal_strlit("while_producer_lives");
    reveal_strlit("durable");
    assert("transient"@.len() == 9 && "while_producer_lives"@.len() == 20 && "durable"@.len() == 7);
}

/// Everything that a writer declares about content and that does not follow from it.
#[derive(Debug, PartialEq, Eq)]
pub struct ArtifactWrite {
    media_type: ArtifactMediaType,
    retention: ArtifactRetention,
    retain_until_ms: Option<u64>,
    provenance: ArtifactProvenance,
    expected_id: Option<ArtifactId>,
}

/// What an [`ArtifactWrite`] says.
pub struct WriteView {
    pub media_type: Seq<char>,
    pub retention: ArtifactRetention,
    pub retain_until_ms: Option<u64>,
    pub provenance: ProvenanceView,
    pub expected_id: Option<Seq<char>>,
}

impl View for ArtifactWrite {
    type V = WriteView;

    closed spec fn view(&self) -> WriteView {
        WriteView {
            media_type: self.media_type@,
            retention: self.retention,
            retain_until_ms: self.retain_until_ms,
            provenance: self.provenance@,
            expected_id: match self.expected_id {
                Some(id) => Some(id@),
                None => None,
            },
        }
    }
}

/// What is wrong with a write: its size, its declaration, or an identity that the content does
/// not have.
pub open spec fn write_fault(write: WriteView, content: Seq<u8>) -> Option<ArtifactFault> {
    if content.len() > MAX_ARTIFACT_BYTES {
        Some(
            ArtifactFault::Validation(
                "artifact exceeds "@ + decimal(MAX_ARTIFACT_BYTES as nat) + " bytes"@,
            ),
        )
    } else {
        first_fault(
            media_type_fault(write.media_type),
            first_fault(
                provenance_fault(write.provenance),
                if write.expected_id is Some && write.expected_id->Some_0
                    != crate::artifact::identity_of(sha256_hex(content)) {
                    Some(
                        ArtifactFault::Validation(
                            "content does not address to the declared artifact identity"@,
                        ),
                    )
                } else {
                    None
                },
            ),
        )
    }
}

impl ArtifactWrite {
    pub fn new(
        media_type: ArtifactMediaType,
        retention: ArtifactRetention,
        provenance: ArtifactProvenance,
    ) -> (r: ArtifactWrite)
        ensures
            r@ == (WriteView {
                media_type: media_type@,
                retention,
                retain_until_ms: None,
                provenance: provenance@,
                expected_id: None,
            }),
    {
        ArtifactWrite { media_type, retention, retain_until_ms: None, provenance, expected_id: None }
    }

    /// The instant after which a host's retention policy may drop the content.
    pub fn retain_until(self, value: u64) -> (r: ArtifactWrite)
        ensures
            r@ == (WriteView { retain_until_ms: Some(value), ..self@ }),
    {
        ArtifactWrite { retain_until_ms: Some(value), ..self }
    }

    /// Declares the identity that the content must have.
    pub fn expect_identity(self, id: ArtifactId) -> (r: ArtifactWrite)
        ensures
            r@ == (WriteView { expected_id: Some(id@), ..self@ }),
    {
        ArtifactWrite { expected_id: Some(id), ..self }
    }

    pub fn media_type(&self) -> (r: &ArtifactMediaType)
        ensures
            r@ == self@.media_type,
    {
        &self.media_type
    }

    pub fn retention(&self) -> (r: ArtifactRetention)
        ensures
            r == self@.retention,
    {
        self.retention
    }

    pub fn retain_until_ms(&self) -> (r: Option<u64>)
        ensures
            r == self@.retain_until_ms,
    {
        self.retain_until_ms
    }

    pub fn provenance(&self) -> (r: &ArtifactProvenance)
        ensures
            r@ == self@.provenance,
    {
        &self.provenance
    }

    pub fn expected_id(&self) -> (r: Option<&ArtifactId>)
        ensures
            match r {
                Some(id) => self@.expected_id == Some(id@),
                None => self@.expected_id is None,
            },
    {
        match &self.expected_id {
            Some(id) => Some(id),
            None => None,
        }
    }

    /// Checks the declaration against the content that it describes, before anything is stored.
    pub fn validate_for(&self, content: &[u8]) -> (r: Result<ArtifactHandle, ArtifactError>)
        ensures
            match write_fault(self@, content@) {
                Some(e) => artifact_fault(r) == Some(e),
                None => r is Ok && r->Ok_0@ == sha256_hex(content@),
            },
    {
        if content.len() > MAX_ARTIFACT_BYTES {
            let mut message = "artifact exceeds ".to_owned();
            push_decimal(&mut message, MAX_ARTIFACT_BYTES as u64);
            message.append(" bytes");
            return Err(ArtifactError::Validation(message));
        }
        ArtifactMediaType::new(self.media_type.as_str())?;
        self.provenance.validate()?;
        let handle = ArtifactHandle::for_content(content);
        if let Some(expected) = &self.expected_id {
            if !expected.same(handle.id()) {
                return Err(validation("content does not address to the declared artifact identity"));
            }
        }
        Ok(handle)
    }
}

/// A write is in order exactly where the content is within its bound, the media type and the
/// provenance are in order, and an identity that it declares is the one of its content. Provenance
/// carries an observation exactly where it is an instrument's.
pub proof fn law_writes_declare_their_content(write: WriteView, content: Seq<u8>)
    ensures
        write_fault(write, content) is None <==> {
            &&& content.len() <= MAX_ARTIFACT_BYTES
            &&& media_type_fault(write.media_type) is None
            &&& label_fault(write.provenance.producer_run) is None
            &&& label_fault(write.provenance.operation) is None
            &&& write.provenance.observation is Some <==> write.provenance.kind
                == ArtifactProvenanceKind::InstrumentObservation
            &&& write.provenance.observation matches Some(observation) ==> {
                &&& label_fault(observation.program) is None
                &&& label_fault(observation.revision) is None
                &&& observation.inputs.len() <= MAX_ARTIFACT_OBSERVATION_INPUTS
            }
            &&& write.expected_id matches Some(id) ==> id == crate::artifact::identity_of(
                sha256_hex(content),
            )
        },
{
}

} // verus!

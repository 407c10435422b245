//! The kernel images that a host is willing to run, and the fragments it submits to them.

use crate::artifact::ArtifactDigest;
use crate::digest::{
    framed, law_text_framing_is_injective, sha256_hex, text_bytes, text_views, texts_frameable,
};
use crate::kernel::{
    execution_bounds_fault, first_of, kernel_fault, label_fault, numbered, session_bounds_fault,
    three, validation, ExecutionBoundsView, KernelError, KernelExecutionBounds, KernelFault,
    KernelLabel, KernelSessionBounds, SessionBoundsView, LOCAL_KERNEL_PROTOCOL,
    MAX_KERNEL_SOURCE_BYTES,
};
use crate::program::{
    absolute, digest_of_fields, fields_identity, is_absolute, program_path_fault, push_number,
    push_text, ProgramFault, ProgramPath, MAX_PROGRAM_ARGUMENTS, MAX_PROGRAM_ARGUMENT_BYTES,
    MAX_PROGRAM_ENVIRONMENT_ENTRIES, MAX_PROGRAM_ENVIRONMENT_NAME_BYTES,
    MAX_PROGRAM_ENVIRONMENT_VALUE_BYTES,
};
use crate::text::{
    alphanumeric, ascii_lower, ascii_upper, byte_len, chars_of, decimal, is_alphanumeric, is_lower,
    is_upper, lemma_decimal_injective, lower, same_text, text_of, to_lower, upper, utf8_len,
};
use crate::text_map::{lemma_listing_exists, lists_in_order, sorted_keys, TextMap};
use vstd::prelude::*;

verus! {

/// Whether two names of environment variables are the same, whatever the case of their letters.
pub open spec fn same_name(a: Seq<char>, b: Seq<char>) -> bool {
    a.len() == b.len() && forall|i: int|
        0 <= i < a.len() ==> ascii_lower(#[trigger] a[i]) == ascii_lower(b[i])
}

/// The names that no kernel may be given. A host that has more adds them to its specification.
pub open spec fn published_reserved(name: Seq<char>) -> bool {
    ||| same_name("ANTHROPIC_API_KEY"@, name)
    ||| same_name("GROK_API_KEY"@, name)
    ||| same_name("GROK_BUILD_API_KEY"@, name)
    ||| same_name("GROK_BUILD_RELAY_BEARER"@, name)
    ||| same_name("GROK_BUILD_RELAY_TOKEN"@, name)
    ||| same_name("OPENAI_API_KEY"@, name)
    ||| same_name("XAI_API_KEY"@, name)
}

/// Whether a name is published or declared as reserved.
pub open spec fn is_reserved(reserved: Seq<Seq<char>>, name: Seq<char>) -> bool {
    published_reserved(name) || exists|i: int|
        0 <= i < reserved.len() && same_name(#[trigger] reserved[i], name)
}

/// Whether two names are the same, whatever the case of their letters.
pub fn equal_name(a: &str, b: &str) -> (r: bool)
    ensures
        r == same_name(a@, b@),
{
    let left = chars_of(a);
    let right = chars_of(b);
    if left.len() != right.len() {
        return false;
    }
    let mut i: usize = 0;
    while i < left.len()
        invariant
            i <= left@.len(),
            left@.len() == right@.len(),
            left@ == a@,
            right@ == b@,
            forall|j: int| 0 <= j < i ==> ascii_lower(#[trigger] a@[j]) == ascii_lower(b@[j]),
        decreases left@.len() - i,
    {
        let x = to_lower(left[i]);
        let y = to_lower(right[i]);
        if x != y {
            assert(ascii_lower(a@[i as int]) != ascii_lower(b@[i as int]));
            return false;
        }
        i += 1;
    }
    true
}

/// Whether a text is a name of an environment variable: a letter or underscore, and letters,
/// digits and underscores behind it.
pub open spec fn is_identifier(name: Seq<char>) -> bool {
    &&& name.len() > 0
    &&& is_lower(name[0]) || is_upper(name[0]) || name[0] == '_'
    &&& forall|i: int|
        0 < i < name.len() ==> is_alphanumeric(#[trigger] name[i]) || name[i] == '_'
}

/// What is wrong with the name of an environment variable.
pub open spec fn environment_name_fault(name: Seq<char>) -> Option<KernelFault> {
    if name.len() == 0 || utf8_len(name) > MAX_PROGRAM_ENVIRONMENT_NAME_BYTES {
        Some(KernelFault::Validation("environment variable name is empty or too long"@))
    } else if !is_identifier(name) {
        Some(KernelFault::Validation("environment variable name is not an ASCII identifier"@))
    } else {
        None
    }
}

fn identifier(name: &str) -> (r: bool)
    ensures
        r == is_identifier(name@),
{
    let chars = chars_of(name);
    if chars.len() == 0 {
        return false;
    }
    let first = chars[0];
    if !(lower(first) || upper(first) || first == '_') {
        return false;
    }
    let mut i: usize = 1;
    while i < chars.len()
        invariant
            1 <= i <= chars@.len(),
            chars@ == name@,
            forall|j: int|
                0 < j < i ==> is_alphanumeric(#[trigger] name@[j]) || name@[j] == '_',
        decreases chars@.len() - i,
    {
        let c = chars[i];
        if !(alphanumeric(c) || c == '_') {
            assert(!(is_alphanumeric(name@[i as int]) || name@[i as int] == '_'));
            return false;
        }
        i += 1;
    }
    true
}

/// Checks the name of an environment variable.
pub fn validate_environment_name(name: &str) -> (r: Result<(), KernelError>)
    ensures
        kernel_fault(r) == environment_name_fault(name@),
{
    if name.is_empty() || byte_len(name) > MAX_PROGRAM_ENVIRONMENT_NAME_BYTES {
        return Err(validation("environment variable name is empty or too long"));
    }
    if !identifier(name) {
        return Err(validation("environment variable name is not an ASCII identifier"));
    }
    Ok(())
}

/// Whether a text holds a NUL.
pub open spec fn has_nul(text: Seq<char>) -> bool {
    exists|i: int| 0 <= i < text.len() && #[trigger] text[i] == '\0'
}

/// Whether a text holds a character.
pub fn holds_char(text: &str, sought: char) -> (r: bool)
    ensures
        r == exists|i: int| 0 <= i < text@.len() && #[trigger] text@[i] == sought,
{
    let chars = chars_of(text);
    let mut i: usize = 0;
    while i < chars.len()
        invariant
            i <= chars@.len(),
            chars@ == text@,
            forall|j: int| 0 <= j < i ==> #[trigger] text@[j] != sought,
        decreases chars@.len() - i,
    {
        if chars[i] == sought {
            assert(text@[i as int] == sought);
            return true;
        }
        i += 1;
    }
    false
}

/// `text` with its small ASCII letters made capital.
pub open spec fn upper_text(text: Seq<char>) -> Seq<char> {
    Seq::new(text.len(), |i: int| ascii_upper(text[i]))
}

fn to_upper_text(text: &str) -> (r: String)
    ensures
        r@ == upper_text(text@),
{
    let chars = chars_of(text);
    let mut out: Vec<char> = Vec::new();
    let mut i: usize = 0;
    while i < chars.len()
        invariant
            i <= chars@.len(),
            chars@ == text@,
            out@.len() == i,
            forall|j: int| 0 <= j < i ==> #[trigger] out@[j] == ascii_upper(text@[j]),
        decreases chars@.len() - i,
    {
        let c = chars[i];
        if lower(c) {
            let code: u32 = c as u32;
            let big: u8 = (code - 32) as u8;
            out.push(big as char);
        } else {
            out.push(c);
        }
        i += 1;
    }
    let r = text_of(&out, 0, out.len());
    proof {
        assert(r@ =~= upper_text(text@));
    }
    r
}

/// A kernel image. Its environment holds literal values only; there is no shape in which a
/// credential could be attached.
#[derive(Debug, PartialEq, Eq)]
pub struct KernelSpec {
    program: ProgramPath,
    protocol: KernelLabel,
    arguments: Vec<String>,
    environment: TextMap<String>,
    reserved: Vec<String>,
    working_root: String,
    bounds: KernelSessionBounds,
}

/// What a [`KernelSpec`] says.
pub struct SpecView {
    pub program: Seq<char>,
    pub protocol: Seq<char>,
    pub arguments: Seq<Seq<char>>,
    pub environment: Map<Seq<char>, Seq<char>>,
    pub reserved: Seq<Seq<char>>,
    pub working_root: Seq<char>,
    pub bounds: SessionBoundsView,
}

/// What each value says.
pub open spec fn value_views(values: Map<Seq<char>, String>) -> Map<Seq<char>, Seq<char>> {
    values.map_values(|v: String| v@)
}

impl View for KernelSpec {
    type V = SpecView;

    closed spec fn view(&self) -> SpecView {
        SpecView {
            program: self.program@,
            protocol: self.protocol@,
            arguments: text_views(self.arguments@),
            environment: value_views(self.environment@),
            reserved: text_views(self.reserved@),
            working_root: self.working_root@,
            bounds: self.bounds@,
        }
    }
}

/// What is wrong with one more argument.
pub open spec fn argument_fault(spec: SpecView, value: Seq<char>) -> Option<KernelFault> {
    if spec.arguments.len() >= MAX_PROGRAM_ARGUMENTS {
        Some(
            KernelFault::Validation(
                "a kernel spec may declare at most "@ + decimal(MAX_PROGRAM_ARGUMENTS as nat)
                    + " arguments"@,
            ),
        )
    } else if utf8_len(value) > MAX_PROGRAM_ARGUMENT_BYTES {
        Some(
            KernelFault::Validation(
                "kernel argument exceeds "@ + decimal(MAX_PROGRAM_ARGUMENT_BYTES as nat)
                    + " bytes"@,
            ),
        )
    } else if has_nul(value) {
        Some(KernelFault::Validation("kernel argument contains a NUL byte"@))
    } else {
        None
    }
}

/// What is wrong with a reserved name.
pub open spec fn reserved_fault(reserved: Seq<Seq<char>>, name: Seq<char>) -> Option<KernelFault> {
    if is_reserved(reserved, name) {
        Some(
            KernelFault::Validation(
                "environment variable "@ + name
                    + " is reserved: a kernel receives no credential"@,
            ),
        )
    } else {
        None
    }
}

/// What is wrong with one more environment value.
pub open spec fn environment_fault(spec: SpecView, name: Seq<char>, value: Seq<char>) -> Option<
    KernelFault,
> {
    first_of(
        environment_name_fault(name),
        first_of(
            reserved_fault(spec.reserved, name),
            if utf8_len(value) > MAX_PROGRAM_ENVIRONMENT_VALUE_BYTES {
                Some(
                    KernelFault::Validation(
                        "kernel environment value exceeds "@ + decimal(
                            MAX_PROGRAM_ENVIRONMENT_VALUE_BYTES as nat,
                        ) + " bytes"@,
                    ),
                )
            } else if has_nul(value) {
                Some(KernelFault::Validation("kernel environment value contains a NUL byte"@))
            } else if spec.environment.dom().len() >= MAX_PROGRAM_ENVIRONMENT_ENTRIES {
                Some(
                    KernelFault::Validation(
                        "a kernel spec may declare at most "@ + decimal(
                            MAX_PROGRAM_ENVIRONMENT_ENTRIES as nat,
                        ) + " environment entries"@,
                    ),
                )
            } else if spec.environment.dom().contains(name) {
                Some(
                    KernelFault::Validation(
                        "environment variable "@ + name + " is bound twice"@,
                    ),
                )
            } else {
                None
            },
        ),
    )
}

/// What is wrong with reserving a name: it must be one, and must not be bound already.
pub open spec fn reserving_fault(spec: SpecView, name: Seq<char>) -> Option<KernelFault> {
    first_of(
        environment_name_fault(name),
        if exists|bound: Seq<char>|
            #![trigger spec.environment.dom().contains(bound)]
            spec.environment.dom().contains(bound) && same_name(bound, name) {
            Some(
                KernelFault::Validation(
                    "environment variable "@ + name + " is already bound and cannot be reserved"@,
                ),
            )
        } else {
            None
        },
    )
}

/// What is wrong with the arguments of a stored specification.
pub open spec fn arguments_fault(arguments: Seq<Seq<char>>) -> Option<KernelFault> {
    if arguments.len() > MAX_PROGRAM_ARGUMENTS {
        Some(KernelFault::Validation("a kernel spec declares too many arguments"@))
    } else if exists|i: int|
        0 <= i < arguments.len() && (utf8_len(#[trigger] arguments[i]) > MAX_PROGRAM_ARGUMENT_BYTES
            || has_nul(arguments[i])) {
        Some(KernelFault::Validation("a kernel spec declares an invalid argument"@))
    } else {
        None
    }
}

/// What is wrong with the environment of a stored specification, from one name on.
pub open spec fn bindings_fault(
    names: Seq<Seq<char>>,
    environment: Map<Seq<char>, Seq<char>>,
    reserved: Seq<Seq<char>>,
    from: int,
) -> Option<KernelFault>
    decreases names.len() - from,
{
    if from < 0 || from >= names.len() {
        None
    } else {
        first_of(
            environment_name_fault(names[from]),
            first_of(
                reserved_fault(reserved, names[from]),
                if utf8_len(environment[names[from]]) > MAX_PROGRAM_ENVIRONMENT_VALUE_BYTES
                    || has_nul(environment[names[from]]) {
                    Some(
                        KernelFault::Validation(
                            "a kernel spec declares an invalid environment value"@,
                        ),
                    )
                } else {
                    bindings_fault(names, environment, reserved, from + 1)
                },
            ),
        )
    }
}

/// What is wrong with a whole specification, given whether its working root is a directory.
pub open spec fn spec_fault(spec: SpecView, root_is_dir: bool) -> Option<KernelFault> {
    first_of(
        match program_path_fault(spec.program) {
            Some(m) => Some(
                KernelFault::Validation(ProgramFault::Validation(m).words()),
            ),
            None => None,
        },
        first_of(
            label_fault(spec.protocol),
            first_of(
                session_bounds_fault(spec.bounds),
                first_of(
                    arguments_fault(spec.arguments),
                    first_of(
                        if spec.environment.dom().len() > MAX_PROGRAM_ENVIRONMENT_ENTRIES {
                            Some(
                                KernelFault::Validation(
                                    "a kernel spec declares too many environment entries"@,
                                ),
                            )
                        } else {
                            None
                        },
                        first_of(
                            bindings_fault(
                                sorted_keys(spec.environment.dom()),
                                spec.environment,
                                spec.reserved,
                                0,
                            ),
                            if !is_absolute(spec.working_root) {
                                Some(
                                    KernelFault::Validation("kernel working root is not absolute"@),
                                )
                            } else if !root_is_dir {
                                Some(
                                    KernelFault::Validation(
                                        "kernel working root is not an existing directory"@,
                                    ),
                                )
                            } else {
                                None
                            },
                        ),
                    ),
                ),
            ),
        ),
    )
}

/// The names and values of an environment, one behind the other.
pub open spec fn binding_fields(names: Seq<Seq<char>>, environment: Map<Seq<char>, Seq<char>>) -> Seq<
    Seq<char>,
>
    decreases names.len(),
{
    if names.len() == 0 {
        Seq::empty()
    } else {
        binding_fields(names.drop_last(), environment).push(names.last()).push(
            environment[names.last()],
        )
    }
}

/// The fields that the identity of an image is taken over. The dialect is one of them, so an
/// image that answers another dialect is another image.
pub open spec fn spec_fields(spec: SpecView) -> Seq<Seq<char>> {
    seq![
        "kernel-spec"@,
        spec.protocol,
        spec.program,
        spec.working_root,
        decimal(spec.arguments.len()),
    ] + spec.arguments + seq![decimal(spec.environment.dom().len())] + binding_fields(
        sorted_keys(spec.environment.dom()),
        spec.environment,
    ) + seq![
        decimal(spec.bounds.idle_deadline_ms as nat),
        decimal(spec.bounds.max_executions as nat),
        decimal(spec.bounds.max_captured_bytes as nat),
    ]
}

/// The identity of an image.
pub open spec fn spec_identity(spec: SpecView) -> Seq<char> {
    fields_identity(spec_fields(spec))
}

impl KernelSpec {
    /// Declares an image and the dialect that it is expected to speak.
    pub fn new(
        program: ProgramPath,
        protocol: KernelLabel,
        working_root: &str,
        bounds: KernelSessionBounds,
    ) -> (r: Result<KernelSpec, KernelError>)
        ensures
            if !is_absolute(working_root@) {
                kernel_fault(r) == Some(
                    KernelFault::Validation("kernel working root is not absolute"@),
                )
            } else {
                match session_bounds_fault(bounds@) {
                    Some(e) => kernel_fault(r) == Some(e),
                    None => r is Ok && r->Ok_0@ == (SpecView {
                        program: program@,
                        protocol: protocol@,
                        arguments: Seq::empty(),
                        environment: Map::empty(),
                        reserved: Seq::empty(),
                        working_root: working_root@,
                        bounds: bounds@,
                    }),
                }
            },
    {
        if !absolute(working_root) {
            return Err(validation("kernel working root is not absolute"));
        }
        bounds.validate()?;
        let r = KernelSpec {
            program,
            protocol,
            arguments: Vec::new(),
            environment: TextMap::new(),
            reserved: Vec::new(),
            working_root: working_root.to_owned(),
            bounds,
        };
        proof {
            assert(r@.arguments =~= Seq::<Seq<char>>::empty());
            assert(r@.reserved =~= Seq::<Seq<char>>::empty());
            assert(r@.environment =~= Map::<Seq<char>, Seq<char>>::empty());
        }
        Ok(r)
    }

    /// Adds an argument.
    pub fn argument(self, value: &str) -> (r: Result<KernelSpec, KernelError>)
        ensures
            match argument_fault(self@, value@) {
                Some(e) => kernel_fault(r) == Some(e),
                None => r is Ok && r->Ok_0@ == (SpecView {
                    arguments: self@.arguments.push(value@),
                    ..self@
                }),
            },
    {
        if self.arguments.len() >= MAX_PROGRAM_ARGUMENTS {
            return Err(
                KernelError::Validation(
                    numbered(
                        "a kernel spec may declare at most ",
                        MAX_PROGRAM_ARGUMENTS as u64,
                        " arguments",
                    ),
                ),
            );
        }
        if byte_len(value) > MAX_PROGRAM_ARGUMENT_BYTES {
            return Err(
                KernelError::Validation(
                    numbered("kernel argument exceeds ", MAX_PROGRAM_ARGUMENT_BYTES as u64, " bytes"),
                ),
            );
        }
        if holds_char(value, '\0') {
            return Err(validation("kernel argument contains a NUL byte"));
        }
        let mut arguments = self.arguments;
        push_text(&mut arguments, value);
        Ok(KernelSpec { arguments, ..self })
    }

    /// Binds one literal environment value.
    pub fn environment(self, name: &str, value: &str) -> (r: Result<KernelSpec, KernelError>)
        ensures
            match environment_fault(self@, name@, value@) {
                Some(e) => kernel_fault(r) == Some(e),
                None => r is Ok && r->Ok_0@ == (SpecView {
                    environment: self@.environment.insert(name@, value@),
                    ..self@
                }),
            },
    {
        validate_environment_name(name)?;
        self.refuse_reserved(name)?;
        if byte_len(value) > MAX_PROGRAM_ENVIRONMENT_VALUE_BYTES {
            return Err(
                KernelError::Validation(
                    numbered(
                        "kernel environment value exceeds ",
                        MAX_PROGRAM_ENVIRONMENT_VALUE_BYTES as u64,
                        " bytes",
                    ),
                ),
            );
        }
        if holds_char(value, '\0') {
            return Err(validation("kernel environment value contains a NUL byte"));
        }
        proof {
            assert(self@.environment.dom() =~= self.environment@.dom());
        }
        if self.environment.len() >= MAX_PROGRAM_ENVIRONMENT_ENTRIES {
            return Err(
                KernelError::Validation(
                    numbered(
                        "a kernel spec may declare at most ",
                        MAX_PROGRAM_ENVIRONMENT_ENTRIES as u64,
                        " environment entries",
                    ),
                ),
            );
        }
        if self.environment.contains_key(name) {
            return Err(
                KernelError::Validation(three("environment variable ", name, " is bound twice")),
            );
        }
        let ghost before = self@.environment;
        let mut environment = self.environment;
        environment.insert(name, value.to_owned());
        proof {
            assert(value_views(environment@) =~= before.insert(name@, value@));
        }
        Ok(KernelSpec { environment, ..self })
    }

    /// Adds a name to the reserved ones.
    pub fn reserving(self, name: &str) -> (r: Result<KernelSpec, KernelError>)
        ensures
            match reserving_fault(self@, name@) {
                Some(e) => kernel_fault(r) == Some(e),
                None => r is Ok && r->Ok_0@ == (SpecView {
                    reserved: self@.reserved.push(upper_text(name@)),
                    ..self@
                }),
            },
    {
        validate_environment_name(name)?;
        let count: usize = self.environment.len();
        let ghost dom = self@.environment.dom();
        proof {
            assert(dom =~= self.environment@.dom());
        }
        let mut i: usize = 0;
        while i < count
            invariant
                i <= count,
                count == self.environment.keys().len(),
                dom == self.environment@.dom(),
                dom == self@.environment.dom(),
                lists_in_order(self.environment.keys(), dom),
                environment_name_fault(name@) is None,
                forall|j: int|
                    0 <= j < i ==> !same_name(#[trigger] self.environment.keys()[j], name@),
            decreases count - i,
        {
            let bound = self.environment.key_at(i);
            if equal_name(bound, name) {
                assert(self@.environment.dom().contains(bound@));
                return Err(
                    KernelError::Validation(
                        three(
                            "environment variable ",
                            name,
                            " is already bound and cannot be reserved",
                        ),
                    ),
                );
            }
            i += 1;
        }
        proof {
            assert forall|bound: Seq<char>|
                #![trigger self@.environment.dom().contains(bound)]
                self@.environment.dom().contains(bound) implies !same_name(bound, name@) by {
                let keys = self.environment.keys();
                assert(keys.contains(bound));
                let j = choose|j: int| 0 <= j < keys.len() && keys[j] == bound;
                assert(!same_name(keys[j], name@));
            }
        }
        let capital = to_upper_text(name);
        let mut reserved = self.reserved;
        push_text(&mut reserved, capital.as_str());
        Ok(KernelSpec { reserved, ..self })
    }

    pub fn program(&self) -> (r: &ProgramPath)
        ensures
            r@ == self@.program,
    {
        &self.program
    }

    pub fn protocol(&self) -> (r: &KernelLabel)
        ensures
            r@ == self@.protocol,
    {
        &self.protocol
    }

    pub fn arguments(&self) -> (r: &[String])
        ensures
            text_views(r@) == self@.arguments,
    {
        self.arguments.as_slice()
    }

    pub fn environment_bindings(&self) -> (r: &TextMap<String>)
        ensures
            value_views(r@) == self@.environment,
    {
        &self.environment
    }

    pub fn working_root(&self) -> (r: &str)
        ensures
            r@ == self@.working_root,
    {
        self.working_root.as_str()
    }

    pub fn bounds(&self) -> (r: KernelSessionBounds)
        ensures
            r@ == self@.bounds,
    {
        self.bounds
    }

    /// Identifies the image without reproducing it.
    pub fn spec_digest(&self) -> (r: ArtifactDigest)
        ensures
            r@ == spec_identity(self@),
            spec_frameable(self@),
            self@.environment.dom().finite(),
    {
        proof {
            self.environment.lemma_finite();
            assert(self@.environment.dom() =~= self.environment@.dom());
        }
        let ghost head = seq![
            "kernel-spec"@,
            self@.protocol,
            self@.program,
            self@.working_root,
            decimal(self@.arguments.len()),
        ];
        let mut fields: Vec<String> = Vec::new();
        push_text(&mut fields, "kernel-spec");
        push_text(&mut fields, self.protocol.as_str());
        push_text(&mut fields, self.program.as_str());
        push_text(&mut fields, self.working_root.as_str());
        push_number(&mut fields, self.arguments.len() as u64);
        proof {
            assert(text_views(fields@) =~= head);
            assert(head + text_views(self.arguments@).take(0) =~= head);
        }
        let mut i: usize = 0;
        while i < self.arguments.len()
            invariant
                i <= self.arguments@.len(),
                text_views(fields@) == head + text_views(self.arguments@).take(i as int),
            decreases self.arguments@.len() - i,
        {
            push_text(&mut fields, self.arguments[i].as_str());
            proof {
                let all = text_views(self.arguments@);
                assert(head + all.take(i + 1) =~= (head + all.take(i as int)).push(all[i as int]));
            }
            i += 1;
        }
        let count: usize = self.environment.len();
        push_number(&mut fields, count as u64);
        let ghost env = self@.environment;
        let ghost names = sorted_keys(env.dom());
        let ghost middle = head + self@.arguments + seq![decimal(env.dom().len())];
        proof {
            assert(env.dom() =~= self.environment@.dom());
            assert(text_views(self.arguments@).take(self.arguments@.len() as int)
                =~= self@.arguments);
            assert(text_views(fields@) =~= middle);
            assert(binding_fields(names.take(0), env) =~= Seq::empty());
            assert(middle + Seq::<Seq<char>>::empty() =~= middle);
        }
        let mut k: usize = 0;
        while k < count
            invariant
                k <= count,
                count == names.len(),
                names == self.environment.keys(),
                env == self@.environment,
                env.dom() == self.environment@.dom(),
                text_views(fields@) == middle + binding_fields(names.take(k as int), env),
            decreases count - k,
        {
            let ghost before = text_views(fields@);
            let name = self.environment.key_at(k);
            let value = self.environment.value_at(k);
            push_text(&mut fields, name);
            push_text(&mut fields, value.as_str());
            proof {
                assert(names.take(k + 1).drop_last() =~= names.take(k as int));
                assert(names.take(k + 1).last() == name@);
                assert(env[name@] == value@);
                assert(text_views(fields@) =~= middle + binding_fields(names.take(k + 1), env));
            }
            k += 1;
        }
        push_number(&mut fields, self.bounds.idle_deadline_ms());
        push_number(&mut fields, self.bounds.max_executions());
        push_number(&mut fields, self.bounds.max_captured_bytes());
        proof {
            assert(names.take(names.len() as int) =~= names);
            assert(text_views(fields@) =~= spec_fields(self@));
        }
        digest_of_fields(&fields)
    }

    /// Checks the whole declaration before a process is created.
    #[verifier::loop_isolation(false)]
    pub fn validate(&self, root_is_dir: bool) -> (r: Result<(), KernelError>)
        ensures
            kernel_fault(r) == spec_fault(self@, root_is_dir),
    {
        if let Err(error) = ProgramPath::new(self.program.as_str()) {
            return Err(KernelError::Validation(error.describe()));
        }
        KernelLabel::new(self.protocol.as_str())?;
        self.bounds.validate()?;
        if self.arguments.len() > MAX_PROGRAM_ARGUMENTS {
            return Err(validation("a kernel spec declares too many arguments"));
        }
        let mut i: usize = 0;
        while i < self.arguments.len()
            invariant
                i <= self.arguments@.len(),
                forall|j: int|
                    0 <= j < i ==> utf8_len(#[trigger] self@.arguments[j])
                        <= MAX_PROGRAM_ARGUMENT_BYTES && !has_nul(self@.arguments[j]),
            decreases self.arguments@.len() - i,
        {
            let argument = self.arguments[i].as_str();
            assert(self@.arguments[i as int] == argument@);
            if byte_len(argument) > MAX_PROGRAM_ARGUMENT_BYTES || holds_char(argument, '\0') {
                return Err(validation("a kernel spec declares an invalid argument"));
            }
            i += 1;
        }
        proof {
            assert(arguments_fault(self@.arguments) is None);
        }
        let count: usize = self.environment.len();
        let ghost env = self@.environment;
        let ghost names = sorted_keys(env.dom());
        proof {
            assert(env.dom() =~= self.environment@.dom());
        }
        if count > MAX_PROGRAM_ENVIRONMENT_ENTRIES {
            return Err(validation("a kernel spec declares too many environment entries"));
        }
        let mut k: usize = 0;
        while k < count
            invariant
                k <= count,
                bindings_fault(names, env, self@.reserved, 0) == bindings_fault(
                    names,
                    env,
                    self@.reserved,
                    k as int,
                ),
            decreases count - k,
        {
            let name = self.environment.key_at(k);
            let value = self.environment.value_at(k).as_str();
            assert(names[k as int] == name@);
            assert(env[name@] == value@);
            validate_environment_name(name)?;
            self.refuse_reserved(name)?;
            if byte_len(value) > MAX_PROGRAM_ENVIRONMENT_VALUE_BYTES || holds_char(value, '\0') {
                return Err(validation("a kernel spec declares an invalid environment value"));
            }
            k += 1;
        }
        if !absolute(self.working_root.as_str()) {
            return Err(validation("kernel working root is not absolute"));
        }
        if !root_is_dir {
            return Err(validation("kernel working root is not an existing directory"));
        }
        Ok(())
    }

    fn refuse_reserved(&self, name: &str) -> (r: Result<(), KernelError>)
        ensures
            kernel_fault(r) == reserved_fault(self@.reserved, name@),
    {
        let mut found = equal_name("ANTHROPIC_API_KEY", name) || equal_name("GROK_API_KEY", name)
            || equal_name("GROK_BUILD_API_KEY", name) || equal_name("GROK_BUILD_RELAY_BEARER", name)
            || equal_name("GROK_BUILD_RELAY_TOKEN", name) || equal_name("OPENAI_API_KEY", name)
            || equal_name("XAI_API_KEY", name);
        let mut i: usize = 0;
        while i < self.reserved.len()
            invariant
                i <= self.reserved@.len(),
                found == (published_reserved(name@) || exists|j: int|
                    0 <= j < i && same_name(#[trigger] self@.reserved[j], name@)),
            decreases self.reserved@.len() - i,
        {
            assert(self@.reserved[i as int] == self.reserved@[i as int]@);
            if equal_name(self.reserved[i].as_str(), name) {
                found = true;
            }
            i += 1;
        }
        if found {
            return Err(
                KernelError::Validation(
                    three(
                        "environment variable ",
                        name,
                        " is reserved: a kernel receives no credential",
                    ),
                ),
            );
        }
        Ok(())
    }

    /// Refuses an image that speaks another dialect than the local runtime.
    pub fn ensure_protocol(&self) -> (r: Result<(), KernelError>)
        ensures
            kernel_fault(r) == if self@.protocol == LOCAL_KERNEL_PROTOCOL@ {
                None
            } else {
                Some(
                    KernelFault::Validation(
                        "this backend speaks "@ + LOCAL_KERNEL_PROTOCOL@ + " and not "@
                            + self@.protocol,
                    ),
                )
            },
    {
        if same_text(self.protocol.as_str(), LOCAL_KERNEL_PROTOCOL) {
            return Ok(());
        }
        let mut message = "this backend speaks ".to_owned();
        message.append(LOCAL_KERNEL_PROTOCOL);
        message.append(" and not ");
        message.append(self.protocol.as_str());
        Err(KernelError::Validation(message))
    }
}

/// A reserved name cannot be bound, and a specification that binds one is refused: no name that a
/// credential is read from reaches a kernel.
pub proof fn law_reserved_names_never_reach_a_kernel(spec: SpecView, name: Seq<char>, root_is_dir: bool)
    requires
        spec.environment.dom().finite(),
        spec.environment.dom().contains(name),
        is_reserved(spec.reserved, name),
    ensures
        spec_fault(spec, root_is_dir) is Some,
        forall|value: Seq<char>|
            #[trigger] environment_fault(spec, name, value) is Some,
{
    let names = sorted_keys(spec.environment.dom());
    lemma_listing_exists(spec.environment.dom());
    assert(names.contains(name));
    let k = choose|k: int| 0 <= k < names.len() && names[k] == name;
    lemma_bindings_fault(names, spec.environment, spec.reserved, 0, k);
}

proof fn lemma_bindings_fault(
    names: Seq<Seq<char>>,
    environment: Map<Seq<char>, Seq<char>>,
    reserved: Seq<Seq<char>>,
    from: int,
    k: int,
)
    requires
        0 <= from <= k < names.len(),
        is_reserved(reserved, names[k]),
    ensures
        bindings_fault(names, environment, reserved, from) is Some,
    decreases k - from,
{
    if from < k {
        lemma_bindings_fault(names, environment, reserved, from + 1, k);
    }
}

/// Whether the fields of an image are short enough for their lengths to be written down.
pub open spec fn spec_frameable(spec: SpecView) -> bool {
    texts_frameable(spec_fields(spec))
}

/// The identity of an image is taken over bytes that tell images apart: two images whose encodings
/// are one have the same dialect, program, root, arguments, environment and bounds.
pub proof fn law_encodings_tell_images_apart(a: SpecView, b: SpecView)
    requires
        a.environment.dom().finite(),
        b.environment.dom().finite(),
        spec_frameable(a),
        spec_frameable(b),
        framed(text_bytes(spec_fields(a))) == framed(text_bytes(spec_fields(b))),
    ensures
        b == (SpecView { reserved: b.reserved, ..a }),
{
    law_text_framing_is_injective(spec_fields(a), spec_fields(b));
    let left = spec_fields(a);
    let right = spec_fields(b);
    let n = a.arguments.len() as int;
    let names_a = sorted_keys(a.environment.dom());
    let names_b = sorted_keys(b.environment.dom());
    lemma_listing_exists(a.environment.dom());
    lemma_listing_exists(b.environment.dom());
    let pairs_a = binding_fields(names_a, a.environment);
    let pairs_b = binding_fields(names_b, b.environment);
    lemma_binding_fields(names_a, a.environment);
    lemma_binding_fields(names_b, b.environment);
    assert(left[1] == right[1] && left[2] == right[2] && left[3] == right[3] && left[4]
        == right[4]);
    lemma_decimal_injective(a.arguments.len(), b.arguments.len());
    assert forall|i: int| 0 <= i < n implies a.arguments[i] == b.arguments[i] by {
        assert(left[5 + i] == a.arguments[i] && right[5 + i] == b.arguments[i]);
    }
    assert(a.arguments =~= b.arguments);
    assert(pairs_a.len() == pairs_b.len());
    assert forall|i: int| 0 <= i < pairs_a.len() implies pairs_a[i] == pairs_b[i] by {
        assert(left[6 + n + i] == pairs_a[i] && right[6 + n + i] == pairs_b[i]);
    }
    assert forall|i: int| 0 <= i < names_a.len() implies names_a[i] == names_b[i] && a.environment[
        names_a[i]
    ] == b.environment[names_a[i]] by {
        assert(pairs_a[2 * i] == pairs_b[2 * i]);
        assert(pairs_a[2 * i + 1] == pairs_b[2 * i + 1]);
    }
    assert(names_a =~= names_b);
    assert forall|k: Seq<char>| a.environment.dom().contains(k) == b.environment.dom().contains(
        k,
    ) by {
        assert(names_a.contains(k) == a.environment.dom().contains(k));
        assert(names_b.contains(k) == b.environment.dom().contains(k));
    }
    assert forall|k: Seq<char>| #[trigger] a.environment.dom().contains(k) implies a.environment[k]
        == b.environment[k] by {
        assert(names_a.contains(k));
        let i = choose|i: int| 0 <= i < names_a.len() && names_a[i] == k;
        assert(a.environment[names_a[i]] == b.environment[names_a[i]]);
    }
    assert(a.environment =~= b.environment);
    let at = 6 + n + pairs_a.len();
    assert(left[at] == right[at] && left[at + 1] == right[at + 1] && left[at + 2] == right[at + 2]);
    lemma_decimal_injective(
        a.bounds.idle_deadline_ms as nat,
        b.bounds.idle_deadline_ms as nat,
    );
    lemma_decimal_injective(a.bounds.max_executions as nat, b.bounds.max_executions as nat);
    lemma_decimal_injective(
        a.bounds.max_captured_bytes as nat,
        b.bounds.max_captured_bytes as nat,
    );
}

/// Two images have one digest exactly where they agree on dialect, program, root, arguments,
/// environment and bounds, as long as the digest tells their two encodings apart. What is reserved
/// does not count. That an environment is finite and that every length can be written down holds
/// of every image whose digest was computed.
pub proof fn law_digests_tell_images_apart(a: SpecView, b: SpecView)
    requires
        a.environment.dom().finite(),
        b.environment.dom().finite(),
        spec_frameable(a),
        spec_frameable(b),
        ({
            let x = framed(text_bytes(spec_fields(a)));
            let y = framed(text_bytes(spec_fields(b)));
            sha256_hex(x) == sha256_hex(y) ==> x == y
        }),
    ensures
        spec_identity(a) == spec_identity(b) <==> b == (SpecView { reserved: b.reserved, ..a }),
{
    if spec_identity(a) == spec_identity(b) {
        law_encodings_tell_images_apart(a, b);
    }
    if b == (SpecView { reserved: b.reserved, ..a }) {
        assert(spec_fields(a) == spec_fields(b));
    }
}

/// Reserving a name keeps the digest, and so does binding two variables in the other order: either
/// order is accepted where the first is.
pub proof fn law_digests_do_not_depend_on_the_order_of_calls(
    spec: SpecView,
    reserved: Seq<char>,
    first: Seq<char>,
    first_value: Seq<char>,
    second: Seq<char>,
    second_value: Seq<char>,
)
    requires
        spec.environment.dom().finite(),
    ensures
        spec_identity(SpecView { reserved: spec.reserved.push(reserved), ..spec }) == spec_identity(
            spec,
        ),
        ({
            let one = SpecView {
                environment: spec.environment.insert(first, first_value),
                ..spec
            };
            let other = SpecView {
                environment: spec.environment.insert(second, second_value),
                ..spec
            };
            environment_fault(spec, first, first_value) is None && environment_fault(
                one,
                second,
                second_value,
            ) is None ==> {
                &&& environment_fault(spec, second, second_value) is None
                &&& environment_fault(other, first, first_value) is None
                &&& SpecView {
                    environment: one.environment.insert(second, second_value),
                    ..spec
                } == (SpecView {
                    environment: other.environment.insert(first, first_value),
                    ..spec
                })
            }
        }),
{
    let renamed = SpecView { reserved: spec.reserved.push(reserved), ..spec };
    assert(spec_fields(renamed) == spec_fields(spec));
    let one = spec.environment.insert(first, first_value);
    let other = spec.environment.insert(second, second_value);
    if first != second {
        assert(one.insert(second, second_value) =~= other.insert(first, first_value));
    }
    assert(one.dom() =~= spec.environment.dom().insert(first));
    assert(other.dom() =~= spec.environment.dom().insert(second));
}

proof fn lemma_binding_fields(names: Seq<Seq<char>>, environment: Map<Seq<char>, Seq<char>>)
    ensures
        binding_fields(names, environment).len() == 2 * names.len(),
        forall|i: int|
            0 <= i < names.len() ==> binding_fields(names, environment)[2 * i]
                == #[trigger] names[i] && binding_fields(names, environment)[2 * i + 1]
                == environment[names[i]],
    decreases names.len(),
{
    if names.len() > 0 {
        let rest = names.drop_last();
        lemma_binding_fields(rest, environment);
        assert forall|i: int| 0 <= i < names.len() implies binding_fields(names, environment)[2 * i]
            == #[trigger] names[i] && binding_fields(names, environment)[2 * i + 1]
            == environment[names[i]] by {
            if i < rest.len() {
                assert(rest[i] == names[i]);
            }
        }
    }
}

/// A fragment that is handed to a live session.
#[derive(Debug, PartialEq, Eq)]
pub struct KernelSubmission {
    source: String,
    bounds: KernelExecutionBounds,
}

/// What a [`KernelSubmission`] says.
pub struct SubmissionView {
    pub source: Seq<char>,
    pub bounds: ExecutionBoundsView,
}

impl View for KernelSubmission {
    type V = SubmissionView;

    closed spec fn view(&self) -> SubmissionView {
        SubmissionView { source: self.source@, bounds: self.bounds@ }
    }
}

/// What is wrong with a submission.
pub open spec fn submission_fault(submission: SubmissionView) -> Option<KernelFault> {
    if submission.source.len() == 0 {
        Some(KernelFault::Validation("a submission carries no source"@))
    } else if utf8_len(submission.source) > MAX_KERNEL_SOURCE_BYTES {
        Some(
            KernelFault::Validation(
                "submission source exceeds "@ + decimal(MAX_KERNEL_SOURCE_BYTES as nat)
                    + " bytes"@,
            ),
        )
    } else if has_nul(submission.source) {
        Some(KernelFault::Validation("submission source contains a NUL byte"@))
    } else {
        execution_bounds_fault(submission.bounds)
    }
}

/// The identity of a fragment.
pub open spec fn source_identity(source: Seq<char>) -> Seq<char> {
    fields_identity(seq!["kernel-source"@, source])
}

impl KernelSubmission {
    pub fn new(source: &str, bounds: KernelExecutionBounds) -> (r: Result<
        KernelSubmission,
        KernelError,
    >)
        ensures
            ({
                let view = SubmissionView { source: source@, bounds: bounds@ };
                match submission_fault(view) {
                    Some(e) => kernel_fault(r) == Some(e),
                    None => r is Ok && r->Ok_0@ == view,
                }
            }),
    {
        let submission = KernelSubmission { source: source.to_owned(), bounds };
        submission.validate()?;
        Ok(submission)
    }

    pub fn source(&self) -> (r: &str)
        ensures
            r@ == self@.source,
    {
        self.source.as_str()
    }

    pub fn bounds(&self) -> (r: KernelExecutionBounds)
        ensures
            r@ == self@.bounds,
    {
        self.bounds
    }

    /// Identifies the fragment without reproducing it.
    pub fn source_digest(&self) -> (r: ArtifactDigest)
        ensures
            r@ == source_identity(self@.source),
    {
        let mut fields: Vec<String> = Vec::new();
        push_text(&mut fields, "kernel-source");
        push_text(&mut fields, self.source.as_str());
        proof {
            assert(text_views(fields@) =~= seq!["kernel-source"@, self@.source]);
        }
        digest_of_fields(&fields)
    }

    /// Checks a submission.
    pub fn validate(&self) -> (r: Result<(), KernelError>)
        ensures
            kernel_fault(r) == submission_fault(self@),
    {
        if self.source.as_str().is_empty() {
            return Err(validation("a submission carries no source"));
        }
        if byte_len(self.source.as_str()) > MAX_KERNEL_SOURCE_BYTES {
            return Err(
                KernelError::Validation(
                    numbered(
                        "submission source exceeds ",
                        MAX_KERNEL_SOURCE_BYTES as u64,
                        " bytes",
                    ),
                ),
            );
        }
        if holds_char(self.source.as_str(), '\0') {
            return Err(validation("submission source contains a NUL byte"));
        }
        self.bounds.validate()
    }
}

} // verus!

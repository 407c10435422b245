//! Immutable harness snapshots, each under the address of its content.

use crate::digest::{
    bytes_of, digest_of_fields, field_views, fields_digest, frameable, framed,
    law_framing_is_injective,
};
use crate::evolution::{refusal, EvolutionError, Refusal};
use crate::json::{
    json_parsed, json_written, lemma_depth_more, lemma_lookup_push, lemma_sound_empty,
    lemma_sound_push, lookup, object_json, push_field, sound, text_json, Json, JsonView,
};
use crate::text::{
    blank, byte_len, copy_option, is_blank, option_view, same_option, same_text, utf8_len,
    utf8_text,
};
use vstd::prelude::*;
use vstd::utf8::{
    decode_utf8, encode_utf8, encode_utf8_decode_utf8, encode_utf8_valid_utf8, valid_utf8,
};

verus! {

/// The greatest size of a stored snapshot.
pub const MAX_HARNESS_SNAPSHOT_BYTES: usize = 1_048_576;

/// What a harness tells a model: its complete system prompt, and rules that go with it.
#[derive(Debug, PartialEq, Eq)]
pub struct HarnessContent {
    pub system_prompt: String,
    pub rules: Option<String>,
}

impl HarnessContent {
    pub fn new() -> (r: HarnessContent)
        ensures
            r.system_prompt@ == Seq::<char>::empty(),
            r.rules is None,
    {
        HarnessContent { system_prompt: String::new(), rules: None }
    }

    pub fn system_prompt(self, prompt: &str) -> (r: HarnessContent)
        ensures
            r.system_prompt@ == prompt@,
            r.rules == self.rules,
    {
        HarnessContent { system_prompt: prompt.to_owned(), rules: self.rules }
    }

    pub fn rules(self, rules: &str) -> (r: HarnessContent)
        ensures
            r.system_prompt == self.system_prompt,
            option_view(r.rules) == Some(rules@),
    {
        HarnessContent { system_prompt: self.system_prompt, rules: Some(rules.to_owned()) }
    }
}

/// One immutable harness: its content, under the address of the content.
#[derive(Debug, PartialEq, Eq)]
pub struct HarnessSnapshot {
    pub digest: String,
    pub system_prompt: String,
    pub rules: Option<String>,
}

/// What a [`HarnessSnapshot`] says.
pub struct SnapshotView {
    pub digest: Seq<char>,
    pub system_prompt: Seq<char>,
    pub rules: Option<Seq<char>>,
}

impl View for HarnessSnapshot {
    type V = SnapshotView;

    open spec fn view(&self) -> SnapshotView {
        SnapshotView {
            digest: self.digest@,
            system_prompt: self.system_prompt@,
            rules: option_view(self.rules),
        }
    }
}

/// The domain of content addresses: "sophon-sdk.harness" and a zero byte.
pub open spec fn address_domain() -> Seq<u8> {
    encode_utf8("sophon-sdk.harness"@).push(0)
}

/// The fields of a content.
pub open spec fn content_fields(prompt: Seq<char>, rules: Option<Seq<char>>) -> Seq<Seq<u8>> {
    match rules {
        Some(text) => seq![encode_utf8(prompt), encode_utf8(text)],
        None => seq![encode_utf8(prompt)],
    }
}

/// The address of a content.
pub open spec fn content_address(prompt: Seq<char>, rules: Option<Seq<char>>) -> Seq<char> {
    fields_digest(address_domain(), content_fields(prompt, rules))
}

/// Computes [`content_address`].
pub fn address_of(prompt: &str, rules: &Option<String>) -> (r: String)
    ensures
        r@ == content_address(prompt@, option_view(*rules)),
{
    let mut domain: Vec<u8> = bytes_of("sophon-sdk.harness");
    domain.push(0);
    let mut fields: Vec<Vec<u8>> = Vec::new();
    fields.push(bytes_of(prompt));
    if let Some(text) = rules {
        fields.push(bytes_of(text.as_str()));
    }
    proof {
        assert(field_views(fields@) =~= content_fields(prompt@, option_view(*rules)));
    }
    digest_of_fields(domain.as_slice(), &fields)
}

/// Whether a content is short enough for its lengths to be written down.
pub open spec fn content_frameable(prompt: Seq<char>, rules: Option<Seq<char>>) -> bool {
    frameable(content_fields(prompt, rules))
}

/// A content address is taken of bytes that tell every content apart: two contents whose
/// addressed bytes are one are the same content.
pub proof fn law_addressed_bytes_name_one_content(a: SnapshotView, b: SnapshotView)
    requires
        content_frameable(a.system_prompt, a.rules),
        content_frameable(b.system_prompt, b.rules),
        address_domain() + framed(content_fields(a.system_prompt, a.rules)) == address_domain()
            + framed(content_fields(b.system_prompt, b.rules)),
    ensures
        a.system_prompt == b.system_prompt,
        a.rules == b.rules,
{
    let left = content_fields(a.system_prompt, a.rules);
    let right = content_fields(b.system_prompt, b.rules);
    let head = address_domain();
    assert((head + framed(left)).skip(head.len() as int) =~= framed(left));
    assert((head + framed(right)).skip(head.len() as int) =~= framed(right));
    law_framing_is_injective(left, right);
    assert(left[0] == right[0]);
    crate::text::lemma_encoding_injective(a.system_prompt, b.system_prompt);
    if a.rules is Some && b.rules is Some {
        assert(left[1] == right[1]);
        crate::text::lemma_encoding_injective(a.rules->Some_0, b.rules->Some_0);
    } else {
        assert(left.len() == right.len());
    }
}

/// What is wrong with the prompt of a snapshot.
pub open spec fn snapshot_prompt_fault(prompt: Seq<char>) -> Option<Refusal> {
    if is_blank(prompt) {
        Some(Refusal::Harness("a harness snapshot must carry a system prompt"@))
    } else {
        None
    }
}

impl SnapshotView {
    /// What is wrong with the snapshot: it carries a prompt, and stands under the address of its
    /// content.
    pub open spec fn fault(self) -> Option<Refusal> {
        match snapshot_prompt_fault(self.system_prompt) {
            Some(e) => Some(e),
            None => if self.digest != content_address(self.system_prompt, self.rules) {
                Some(Refusal::Harness("a harness snapshot does not address its own content"@))
            } else {
                None
            },
        }
    }
}

/// A snapshot as a document.
pub open spec fn snapshot_json(s: SnapshotView) -> JsonView {
    let head = Seq::<(Seq<char>, JsonView)>::empty().push(
        ("digest"@, JsonView::Text(s.digest)),
    ).push(("system_prompt"@, JsonView::Text(s.system_prompt)));
    JsonView::Object(
        match s.rules {
            Some(text) => head.push(("rules"@, JsonView::Text(text))),
            None => head,
        },
    )
}

/// The snapshot that a document holds.
pub open spec fn decoded_snapshot(j: JsonView) -> Option<SnapshotView> {
    match (j.text_at("digest"@), j.text_at("system_prompt"@), j.optional_text_at("rules"@)) {
        (Some(digest), Some(system_prompt), Some(rules)) => Some(
            SnapshotView { digest, system_prompt, rules },
        ),
        _ => None,
    }
}

/// A snapshot is read back from its document.
pub proof fn law_snapshot_document_round_trip(s: SnapshotView)
    ensures
        decoded_snapshot(snapshot_json(s)) == Some(s),
        sound(snapshot_json(s), 2),
{
    broadcast use lemma_lookup_push;

    reveal_strlit("digest");
    reveal_strlit("system_prompt");
    reveal_strlit("rules");
    assert("digest"@.len() == 6 && "system_prompt"@.len() == 13 && "rules"@.len() == 5);
    let f0 = Seq::<(Seq<char>, JsonView)>::empty();
    let f1 = f0.push(("digest"@, JsonView::Text(s.digest)));
    let f2 = f1.push(("system_prompt"@, JsonView::Text(s.system_prompt)));
    lemma_sound_empty(1);
    lemma_sound_push(f0, "digest"@, JsonView::Text(s.digest), 1);
    lemma_sound_push(f1, "system_prompt"@, JsonView::Text(s.system_prompt), 1);
    assert(lookup(f2, "digest"@) == Some(JsonView::Text(s.digest)));
    assert(lookup(f2, "system_prompt"@) == Some(JsonView::Text(s.system_prompt)));
    assert(lookup(f2, "rules"@) is None);
    if s.rules is Some {
        let text = s.rules->Some_0;
        let f3 = f2.push(("rules"@, JsonView::Text(text)));
        lemma_sound_push(f2, "rules"@, JsonView::Text(text), 1);
        assert(snapshot_json(s) == JsonView::Object(f3));
        assert(lookup(f3, "digest"@) == Some(JsonView::Text(s.digest)));
        assert(lookup(f3, "system_prompt"@) == Some(JsonView::Text(s.system_prompt)));
        assert(lookup(f3, "rules"@) == Some(JsonView::Text(text)));
    } else {
        assert(snapshot_json(s) == JsonView::Object(f2));
    }
}

/// The bytes of a snapshot, or why it has none.
pub open spec fn snapshot_bytes(s: SnapshotView) -> Result<Seq<u8>, Refusal> {
    match s.fault() {
        Some(e) => Err(e),
        None => {
            let text = json_written(snapshot_json(s));
            if utf8_len(text) > MAX_HARNESS_SNAPSHOT_BYTES {
                Err(Refusal::Harness("a harness snapshot exceeds its size bound"@))
            } else {
                Ok(encode_utf8(text))
            }
        },
    }
}

/// The snapshot that bytes hold, or why they are refused.
pub open spec fn snapshot_read(bytes: Seq<u8>) -> Result<SnapshotView, Refusal> {
    if bytes.len() > MAX_HARNESS_SNAPSHOT_BYTES {
        Err(Refusal::Harness("a harness snapshot exceeds its size bound"@))
    } else if !valid_utf8(bytes) {
        Err(Refusal::Serialization("the bytes are not a JSON document"@))
    } else {
        match json_parsed(decode_utf8(bytes)) {
            None => Err(Refusal::Serialization("the bytes are not a JSON document"@)),
            Some(document) => match decoded_snapshot(document) {
                None => Err(Refusal::Serialization("the document is not a harness snapshot"@)),
                Some(s) => match s.fault() {
                    Some(e) => Err(e),
                    None => Ok(s),
                },
            },
        }
    }
}

fn too_large() -> (r: EvolutionError)
    ensures
        r@ == Refusal::Harness("a harness snapshot exceeds its size bound"@),
{
    EvolutionError::Harness("a harness snapshot exceeds its size bound".to_owned())
}

fn no_document() -> (r: EvolutionError)
    ensures
        r@ == Refusal::Serialization("the bytes are not a JSON document"@),
{
    EvolutionError::Serialization("the bytes are not a JSON document".to_owned())
}

impl HarnessSnapshot {
    /// Puts a content under its address.
    pub fn new(content: HarnessContent) -> (r: Result<HarnessSnapshot, EvolutionError>)
        ensures
            match r {
                Ok(s) => snapshot_prompt_fault(content.system_prompt@) is None && s@.fault() is None
                    && s@ == (SnapshotView {
                    digest: content_address(content.system_prompt@, option_view(content.rules)),
                    system_prompt: content.system_prompt@,
                    rules: option_view(content.rules),
                }),
                Err(e) => snapshot_prompt_fault(content.system_prompt@) == Some(e@),
            },
    {
        let digest = address_of(content.system_prompt.as_str(), &content.rules);
        let snapshot = HarnessSnapshot {
            digest,
            system_prompt: content.system_prompt,
            rules: content.rules,
        };
        snapshot.validate()?;
        Ok(snapshot)
    }

    pub fn digest(&self) -> (r: &str)
        ensures
            r@ == self@.digest,
    {
        self.digest.as_str()
    }

    pub fn system_prompt(&self) -> (r: &str)
        ensures
            r@ == self@.system_prompt,
    {
        self.system_prompt.as_str()
    }

    /// Checks the snapshot.
    pub fn validate(&self) -> (r: Result<(), EvolutionError>)
        ensures
            refusal(r) == self@.fault(),
    {
        if blank(self.system_prompt.as_str()) {
            return Err(
                EvolutionError::Harness(
                    "a harness snapshot must carry a system prompt".to_owned(),
                ),
            );
        }
        let address = address_of(self.system_prompt.as_str(), &self.rules);
        if !same_text(self.digest.as_str(), address.as_str()) {
            return Err(
                EvolutionError::Harness(
                    "a harness snapshot does not address its own content".to_owned(),
                ),
            );
        }
        Ok(())
    }

    /// Whether two snapshots are the same.
    pub fn same(&self, other: &HarnessSnapshot) -> (r: bool)
        ensures
            r == (self@ == other@),
    {
        same_text(self.digest.as_str(), other.digest.as_str()) && same_text(
            self.system_prompt.as_str(),
            other.system_prompt.as_str(),
        ) && same_option(&self.rules, &other.rules)
    }

    /// A second copy of the snapshot.
    pub fn duplicate(&self) -> (r: HarnessSnapshot)
        ensures
            r@ == self@,
    {
        HarnessSnapshot {
            digest: self.digest.clone(),
            system_prompt: self.system_prompt.clone(),
            rules: copy_option(&self.rules),
        }
    }

    /// The snapshot as a document.
    pub fn document(&self) -> (r: Json)
        ensures
            r@ == snapshot_json(self@),
    {
        let mut fields: Vec<(String, Json)> = Vec::new();
        push_field(&mut fields, "digest", text_json(self.digest.as_str()));
        push_field(&mut fields, "system_prompt", text_json(self.system_prompt.as_str()));
        if let Some(text) = &self.rules {
            push_field(&mut fields, "rules", text_json(text.as_str()));
        }
        object_json(fields)
    }

    /// Writes the snapshot, checked and within its bound. What is written is read back as the same
    /// snapshot.
    pub fn to_json_vec(&self) -> (r: Result<Vec<u8>, EvolutionError>)
        ensures
            match snapshot_bytes(self@) {
                Ok(bytes) => r is Ok && r->Ok_0@ == bytes && snapshot_read(bytes) == Ok::<
                    SnapshotView,
                    Refusal,
                >(self@),
                Err(e) => refusal(r) == Some(e),
            },
    {
        self.validate()?;
        proof {
            law_snapshot_document_round_trip(self@);
            lemma_depth_more(snapshot_json(self@), 2, 100);
        }
        let text = self.document().write();
        if byte_len(text.as_str()) > MAX_HARNESS_SNAPSHOT_BYTES {
            return Err(too_large());
        }
        proof {
            encode_utf8_valid_utf8(text@);
            encode_utf8_decode_utf8(text@);
        }
        Ok(bytes_of(text.as_str()))
    }

    /// Reads a snapshot, within its bound, and checks it.
    pub fn from_json_slice(bytes: &[u8]) -> (r: Result<HarnessSnapshot, EvolutionError>)
        ensures
            match snapshot_read(bytes@) {
                Ok(s) => r is Ok && r->Ok_0@ == s,
                Err(e) => refusal(r) == Some(e),
            },
    {
        if bytes.len() > MAX_HARNESS_SNAPSHOT_BYTES {
            return Err(too_large());
        }
        let text = match utf8_text(bytes) {
            Some(text) => text,
            None => {
                return Err(no_document());
            },
        };
        proof {
            encode_utf8_decode_utf8(text@);
        }
        let document = match Json::parse(text.as_str()) {
            Some(document) => document,
            None => {
                return Err(no_document());
            },
        };
        let digest = document.text_at("digest");
        let system_prompt = document.text_at("system_prompt");
        let rules = document.optional_text_at("rules");
        match (digest, system_prompt, rules) {
            (Some(digest), Some(system_prompt), Some(rules)) => {
                let snapshot = HarnessSnapshot { digest, system_prompt, rules };
                snapshot.validate()?;
                Ok(snapshot)
            },
            _ => Err(
                EvolutionError::Serialization("the document is not a harness snapshot".to_owned()),
            ),
        }
    }
}

} // verus!

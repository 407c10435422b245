//! JSON documents as plain values.

use crate::text::{lemma_text_asymmetric, lemma_text_order, same_text, text_before, text_lt};
use serde_json::Value;
use vstd::prelude::*;

verus! {

/// A JSON document. Numbers that are neither unsigned nor negative 64-bit integers keep
/// their text.
#[derive(Debug, PartialEq, Eq)]
pub enum Json {
    Null,
    Bool(bool),
    Unsigned(u64),
    Negative(i64),
    Decimal(String),
    Text(String),
    List(Vec<Json>),
    Object(Vec<(String, Json)>),
}

/// What a JSON document says.
pub enum JsonView {
    Null,
    Bool(bool),
    Unsigned(u64),
    Negative(i64),
    Decimal(Seq<char>),
    Text(Seq<char>),
    List(Seq<JsonView>),
    Object(Seq<(Seq<char>, JsonView)>),
}

/// What a list of documents says.
pub open spec fn list_view(items: Seq<Json>) -> Seq<JsonView>
    decreases items,
{
    if items.len() == 0 {
        Seq::empty()
    } else {
        list_view(items.drop_last()).push(items.last().deep())
    }
}

/// What the fields of an object say.
pub open spec fn fields_view(fields: Seq<(String, Json)>) -> Seq<(Seq<char>, JsonView)>
    decreases fields,
{
    if fields.len() == 0 {
        Seq::empty()
    } else {
        fields_view(fields.drop_last()).push((fields.last().0@, fields.last().1.deep()))
    }
}

impl Json {
    /// What the document says.
    pub open spec fn deep(&self) -> JsonView
        decreases self,
    {
        match self {
            Json::Null => JsonView::Null,
            Json::Bool(b) => JsonView::Bool(*b),
            Json::Unsigned(n) => JsonView::Unsigned(*n),
            Json::Negative(n) => JsonView::Negative(*n),
            Json::Decimal(s) => JsonView::Decimal(s@),
            Json::Text(s) => JsonView::Text(s@),
            Json::List(items) => JsonView::List(list_view(items@)),
            Json::Object(fields) => JsonView::Object(fields_view(fields@)),
        }
    }
}

impl View for Json {
    type V = JsonView;

    open spec fn view(&self) -> JsonView {
        self.deep()
    }
}

pub proof fn lemma_list_view(items: Seq<Json>)
    ensures
        list_view(items).len() == items.len(),
        forall|i: int| 0 <= i < items.len() ==> #[trigger] list_view(items)[i] == items[i]@,
    decreases items.len(),
{
    if items.len() > 0 {
        lemma_list_view(items.drop_last());
        assert forall|i: int| 0 <= i < items.len() implies #[trigger] list_view(items)[i]
            == items[i]@ by {
            if i < items.len() - 1 {
                assert(items.drop_last()[i] == items[i]);
            }
        }
    }
}

pub proof fn lemma_fields_view(fields: Seq<(String, Json)>)
    ensures
        fields_view(fields).len() == fields.len(),
        forall|i: int|
            0 <= i < fields.len() ==> #[trigger] fields_view(fields)[i] == (
                fields[i].0@,
                fields[i].1@,
            ),
    decreases fields.len(),
{
    if fields.len() > 0 {
        lemma_fields_view(fields.drop_last());
        assert forall|i: int| 0 <= i < fields.len() implies #[trigger] fields_view(fields)[i] == (
            fields[i].0@,
            fields[i].1@,
        ) by {
            if i < fields.len() - 1 {
                assert(fields.drop_last()[i] == fields[i]);
            }
        }
    }
}

/// The value of the field `key` of an object, from its position `from` on.
pub open spec fn lookup(fields: Seq<(Seq<char>, JsonView)>, key: Seq<char>) -> Option<JsonView>
    decreases fields.len(),
{
    if fields.len() == 0 {
        None
    } else if fields[0].0 == key {
        Some(fields[0].1)
    } else {
        lookup(fields.drop_first(), key)
    }
}

impl JsonView {
    /// The field `key`, when the document is an object that has it.
    pub open spec fn get(self, key: Seq<char>) -> Option<JsonView> {
        match self {
            JsonView::Object(fields) => lookup(fields, key),
            _ => None,
        }
    }

    /// The field `key`, or null.
    pub open spec fn at(self, key: Seq<char>) -> JsonView {
        match self.get(key) {
            Some(value) => value,
            None => JsonView::Null,
        }
    }

    /// The text of a string document.
    pub open spec fn text(self) -> Option<Seq<char>> {
        match self {
            JsonView::Text(s) => Some(s),
            _ => None,
        }
    }

    /// The value of a boolean document.
    pub open spec fn boolean(self) -> Option<bool> {
        match self {
            JsonView::Bool(b) => Some(b),
            _ => None,
        }
    }

    /// The value of a number that fits in 64 unsigned bits.
    pub open spec fn unsigned(self) -> Option<u64> {
        match self {
            JsonView::Unsigned(n) => Some(n),
            _ => None,
        }
    }

    /// The items of a list.
    pub open spec fn list(self) -> Option<Seq<JsonView>> {
        match self {
            JsonView::List(items) => Some(items),
            _ => None,
        }
    }
}

impl JsonView {
    /// The text of the field `key`.
    pub open spec fn text_at(self, key: Seq<char>) -> Option<Seq<char>> {
        match self.get(key) {
            Some(value) => value.text(),
            None => None,
        }
    }

    /// The text of the field `key`, which may be missing or null.
    pub open spec fn optional_text_at(self, key: Seq<char>) -> Option<Option<Seq<char>>> {
        match self.get(key) {
            None => Some(None),
            Some(JsonView::Null) => Some(None),
            Some(JsonView::Text(s)) => Some(Some(s)),
            Some(_) => None,
        }
    }

    /// The number of the field `key`.
    pub open spec fn unsigned_at(self, key: Seq<char>) -> Option<u64> {
        match self.get(key) {
            Some(value) => value.unsigned(),
            None => None,
        }
    }

    /// The number of the field `key`, which may be missing or null.
    pub open spec fn optional_unsigned_at(self, key: Seq<char>) -> Option<Option<u64>> {
        match self.get(key) {
            None => Some(None),
            Some(JsonView::Null) => Some(None),
            Some(JsonView::Unsigned(n)) => Some(Some(n)),
            Some(_) => None,
        }
    }

    /// The name of the unit variant that the field `key` holds: its name alone, or an object with
    /// nothing but null under the name.
    pub open spec fn variant_at(self, key: Seq<char>) -> Option<Seq<char>> {
        match self.get(key) {
            Some(JsonView::Text(name)) => Some(name),
            Some(JsonView::Object(fields)) => if fields.len() == 1 && fields[0].1 is Null {
                Some(fields[0].0)
            } else {
                None
            },
            _ => None,
        }
    }

    /// The number of the field `key`, which must fit in 32 bits.
    pub open spec fn small_at(self, key: Seq<char>) -> Option<u32> {
        match self.unsigned_at(key) {
            Some(n) => if n <= u32::MAX {
                Some(n as u32)
            } else {
                None
            },
            None => None,
        }
    }
}

/// Whether some field has the key.
pub open spec fn has_key(fields: Seq<(Seq<char>, JsonView)>, key: Seq<char>) -> bool {
    exists|i: int| 0 <= i < fields.len() && (#[trigger] fields[i]).0 == key
}

/// Whether a document can be written and read back: no field twice, no decimal, no key that
/// `serde_json` keeps for itself, and lists and objects at most `n` deep.
pub open spec fn sound(j: JsonView, n: nat) -> bool {
    writable(j) && depth_within(j, n) && unmarked(j)
}

/// Whether fields make a sound object.
pub open spec fn fields_sound(fields: Seq<(Seq<char>, JsonView)>, n: nat) -> bool {
    distinct_keys(fields) && forall|i: int|
        0 <= i < fields.len() ==> (#[trigger] fields[i]).0 != raw_key() && sound(fields[i].1, n)
}

/// No fields make a sound object.
pub proof fn lemma_sound_empty(n: nat)
    ensures
        fields_sound(Seq::<(Seq<char>, JsonView)>::empty(), n),
        forall|k: Seq<char>| !#[trigger] has_key(Seq::<(Seq<char>, JsonView)>::empty(), k),
        raw_key().len() == 30,
        raw_key()[0] == '$',
{
    reveal_strlit("$serde_json::private::RawValue");
}

/// One more field of a new key keeps an object sound.
pub proof fn lemma_sound_push(
    fields: Seq<(Seq<char>, JsonView)>,
    key: Seq<char>,
    value: JsonView,
    n: nat,
)
    requires
        fields_sound(fields, n),
        sound(value, n),
        !has_key(fields, key),
        key != raw_key(),
    ensures
        fields_sound(fields.push((key, value)), n),
        forall|k: Seq<char>|
            #[trigger] has_key(fields.push((key, value)), k) <==> has_key(fields, k) || k == key,
{
    let out = fields.push((key, value));
    assert forall|k: Seq<char>| #[trigger] has_key(out, k) <==> has_key(fields, k) || k == key by {
        if has_key(fields, k) {
            let i = choose|i: int| 0 <= i < fields.len() && (#[trigger] fields[i]).0 == k;
            assert(out[i].0 == k);
        }
        if k == key {
            assert(out[fields.len() as int].0 == k);
        }
        if has_key(out, k) && k != key {
            let i = choose|i: int| 0 <= i < out.len() && (#[trigger] out[i]).0 == k;
            assert(fields[i].0 == k);
        }
    }
    assert forall|i: int, j: int| 0 <= i < j < out.len() implies (#[trigger] out[i]).0 != (
    #[trigger] out[j]).0 by {
        assert(out[i] == fields[i]);
        if j < fields.len() {
            assert(out[j] == fields[j]);
        } else {
            assert(fields[i].0 != key);
        }
    }
}

/// A sound object is found by its keys.
pub proof fn lemma_lookup(fields: Seq<(Seq<char>, JsonView)>, i: int)
    requires
        distinct_keys(fields),
        0 <= i < fields.len(),
    ensures
        lookup(fields, fields[i].0) == Some(fields[i].1),
    decreases fields.len(),
{
    if i > 0 {
        let rest = fields.drop_first();
        assert(fields[0].0 != fields[i].0);
        assert forall|a: int, b: int| 0 <= a < b < rest.len() implies (#[trigger] rest[a]).0 != (
        #[trigger] rest[b]).0 by {
            assert(rest[a] == fields[a + 1]);
            assert(rest[b] == fields[b + 1]);
        }
        lemma_lookup(rest, i - 1);
    }
}

/// A field that was added last is found when no other has its key.
pub broadcast proof fn lemma_lookup_push(
    fields: Seq<(Seq<char>, JsonView)>,
    field: (Seq<char>, JsonView),
    key: Seq<char>,
)
    ensures
        #[trigger] lookup(fields.push(field), key) == (match lookup(fields, key) {
            Some(value) => Some(value),
            None => if field.0 == key {
                Some(field.1)
            } else {
                None
            },
        }),
    decreases fields.len(),
{
    let all = fields.push(field);
    if fields.len() == 0 {
        assert(all.drop_first() =~= Seq::empty());
        assert(all[0] == field);
    } else {
        assert(all.drop_first() =~= fields.drop_first().push(field));
        assert(all[0] == fields[0]);
        lemma_lookup_push(fields.drop_first(), field, key);
    }
}

/// What an object does not name is not found in it.
pub proof fn lemma_lookup_absent(fields: Seq<(Seq<char>, JsonView)>, key: Seq<char>)
    requires
        !has_key(fields, key),
    ensures
        lookup(fields, key) is None,
    decreases fields.len(),
{
    if fields.len() > 0 {
        assert(fields[0].0 != key);
        let rest = fields.drop_first();
        assert forall|i: int| 0 <= i < rest.len() implies (#[trigger] rest[i]).0 != key by {
            assert(rest[i] == fields[i + 1]);
        }
        lemma_lookup_absent(rest, key);
    }
}

/// More room keeps a document within its depth.
pub proof fn lemma_depth_more(j: JsonView, n: nat, m: nat)
    requires
        depth_within(j, n),
        n <= m,
    ensures
        depth_within(j, m),
    decreases j,
{
    match j {
        JsonView::List(items) => {
            assert forall|i: int| 0 <= i < items.len() implies depth_within(
                #[trigger] items[i],
                (m - 1) as nat,
            ) by {
                assert(decreases_to!(j => j->List_0));
                lemma_depth_more(items[i], (n - 1) as nat, (m - 1) as nat);
            }
        },
        JsonView::Object(fields) => {
            assert forall|i: int| 0 <= i < fields.len() implies depth_within(
                (#[trigger] fields[i]).1,
                (m - 1) as nat,
            ) by {
                assert(decreases_to!(j => j->Object_0));
                lemma_depth_more(fields[i].1, (n - 1) as nat, (m - 1) as nat);
            }
        },
        _ => {},
    }
}

/// Whether no object in the document names a field twice, no number is a decimal, and no number is
/// negative in name only.
pub open spec fn writable(j: JsonView) -> bool
    decreases j,
{
    match j {
        JsonView::Decimal(_) => false,
        JsonView::Negative(n) => n < 0,
        JsonView::List(items) => forall|i: int|
            0 <= i < items.len() ==> writable(#[trigger] items[i]),
        JsonView::Object(fields) => {
            &&& forall|i: int| 0 <= i < fields.len() ==> writable((#[trigger] fields[i]).1)
            &&& distinct_keys(fields)
        },
        _ => true,
    }
}

/// Whether no key occurs twice.
pub open spec fn distinct_keys(fields: Seq<(Seq<char>, JsonView)>) -> bool {
    forall|i: int, j: int|
        0 <= i < j < fields.len() ==> (#[trigger] fields[i]).0 != (#[trigger] fields[j]).0
}

/// The key that `serde_json` keeps for itself: it reads an object that begins with it as the text
/// of another document.
pub open spec fn raw_key() -> Seq<char> {
    "$serde_json::private::RawValue"@
}

/// Whether no field of the document has the key that `serde_json` keeps for itself.
pub open spec fn unmarked(j: JsonView) -> bool
    decreases j,
{
    match j {
        JsonView::List(items) => forall|i: int|
            0 <= i < items.len() ==> unmarked(#[trigger] items[i]),
        JsonView::Object(fields) => forall|i: int|
            0 <= i < fields.len() ==> (#[trigger] fields[i]).0 != raw_key() && unmarked(fields[i].1),
        _ => true,
    }
}

/// Whether lists and objects stand in each other at most `n` deep.
pub open spec fn depth_within(j: JsonView, n: nat) -> bool
    decreases j,
{
    match j {
        JsonView::List(items) => n > 0 && forall|i: int|
            0 <= i < items.len() ==> depth_within(#[trigger] items[i], (n - 1) as nat),
        JsonView::Object(fields) => n > 0 && forall|i: int|
            0 <= i < fields.len() ==> depth_within((#[trigger] fields[i]).1, (n - 1) as nat),
        _ => true,
    }
}

/// Whether the document holds no decimal number, and none that is negative in name only.
pub open spec fn integral(j: JsonView) -> bool
    decreases j,
{
    match j {
        JsonView::Decimal(_) => false,
        JsonView::Negative(n) => n < 0,
        JsonView::List(items) => forall|i: int|
            0 <= i < items.len() ==> integral(#[trigger] items[i]),
        JsonView::Object(fields) => forall|i: int|
            0 <= i < fields.len() ==> integral((#[trigger] fields[i]).1),
        _ => true,
    }
}

/// Fields in order, with `value` filed under `key` in place of what was there.
pub open spec fn insert_field(
    fields: Seq<(Seq<char>, JsonView)>,
    key: Seq<char>,
    value: JsonView,
) -> Seq<(Seq<char>, JsonView)>
    decreases fields.len(),
{
    if fields.len() == 0 {
        seq![(key, value)]
    } else if fields[0].0 == key {
        fields.update(0, (key, value))
    } else if text_lt(key, fields[0].0) {
        seq![(key, value)] + fields
    } else {
        seq![fields[0]] + insert_field(fields.drop_first(), key, value)
    }
}

/// The fields of an object in the order of their keys, each value in canonical form.
pub open spec fn canonical_fields(fields: Seq<(Seq<char>, JsonView)>) -> Seq<(Seq<char>, JsonView)>
    decreases fields,
{
    if fields.len() == 0 {
        Seq::empty()
    } else {
        insert_field(
            canonical_fields(fields.drop_last()),
            fields.last().0,
            canonical_form(fields.last().1),
        )
    }
}

/// The items of a list in canonical form.
pub open spec fn canonical_list(items: Seq<JsonView>) -> Seq<JsonView>
    decreases items,
{
    if items.len() == 0 {
        Seq::empty()
    } else {
        canonical_list(items.drop_last()).push(canonical_form(items.last()))
    }
}

/// The document with the fields of every object in the order of their keys.
pub open spec fn canonical_form(j: JsonView) -> JsonView
    decreases j,
{
    match j {
        JsonView::List(items) => JsonView::List(canonical_list(items)),
        JsonView::Object(fields) => JsonView::Object(canonical_fields(fields)),
        _ => j,
    }
}

/// Whether keys stand in strictly increasing order.
pub open spec fn sorted_fields(fields: Seq<(Seq<char>, JsonView)>) -> bool {
    forall|i: int, j: int|
        0 <= i < j < fields.len() ==> text_lt((#[trigger] fields[i]).0, (#[trigger] fields[j]).0)
}

proof fn lemma_insert_field(fields: Seq<(Seq<char>, JsonView)>, key: Seq<char>, value: JsonView)
    requires
        sorted_fields(fields),
        forall|i: int| 0 <= i < fields.len() ==> writable((#[trigger] fields[i]).1),
        writable(value),
    ensures
        sorted_fields(insert_field(fields, key, value)),
        forall|i: int|
            0 <= i < insert_field(fields, key, value).len() ==> writable(
                (#[trigger] insert_field(fields, key, value)[i]).1,
            ),
        forall|i: int|
            0 <= i < insert_field(fields, key, value).len() ==> (#[trigger] insert_field(
                fields,
                key,
                value,
            )[i]).0 == key || exists|j: int|
                0 <= j < fields.len() && (#[trigger] fields[j]).0 == insert_field(
                    fields,
                    key,
                    value,
                )[i].0,
    decreases fields.len(),
{
    let out = insert_field(fields, key, value);
    if fields.len() == 0 {
    } else if fields[0].0 == key {
        assert forall|i: int| 0 <= i < out.len() implies (#[trigger] out[i]).0 == key || exists|j: int|
            0 <= j < fields.len() && (#[trigger] fields[j]).0 == out[i].0 by {
            if i > 0 {
                assert(fields[i].0 == out[i].0);
            }
        }
    } else if text_lt(key, fields[0].0) {
        assert forall|i: int, j: int| 0 <= i < j < out.len() implies text_lt(
            (#[trigger] out[i]).0,
            (#[trigger] out[j]).0,
        ) by {
            if i == 0 && j > 1 {
                assert(text_lt(fields[0].0, fields[j - 1].0));
                lemma_text_order(key, fields[0].0, fields[j - 1].0);
            } else if i > 0 {
                assert(out[i] == fields[i - 1]);
            }
        }
        assert forall|i: int| 0 <= i < out.len() implies (#[trigger] out[i]).0 == key || exists|j: int|
            0 <= j < fields.len() && (#[trigger] fields[j]).0 == out[i].0 by {
            if i > 0 {
                assert(fields[i - 1].0 == out[i].0);
            }
        }
        assert forall|i: int| 0 <= i < out.len() implies writable((#[trigger] out[i]).1) by {
            if i > 0 {
                assert(out[i] == fields[i - 1]);
            }
        }
    } else {
        let rest = fields.drop_first();
        lemma_insert_field(rest, key, value);
        let tail = insert_field(rest, key, value);
        lemma_text_order(key, fields[0].0, key);
        assert forall|i: int| 0 <= i < tail.len() implies text_lt(
            fields[0].0,
            (#[trigger] tail[i]).0,
        ) by {
            if tail[i].0 != key {
                let j = choose|j: int| 0 <= j < rest.len() && (#[trigger] rest[j]).0 == tail[i].0;
                assert(rest[j] == fields[j + 1]);
            }
        }
        assert forall|i: int, j: int| 0 <= i < j < out.len() implies text_lt(
            (#[trigger] out[i]).0,
            (#[trigger] out[j]).0,
        ) by {
            assert(out[j] == tail[j - 1]);
            if i > 0 {
                assert(out[i] == tail[i - 1]);
            }
        }
        assert forall|i: int| 0 <= i < out.len() implies (#[trigger] out[i]).0 == key || exists|j: int|
            0 <= j < fields.len() && (#[trigger] fields[j]).0 == out[i].0 by {
            if i == 0 {
                assert(fields[0].0 == out[0].0);
            } else if out[i].0 != key {
                assert(out[i] == tail[i - 1]);
                let j = choose|j: int| 0 <= j < rest.len() && (#[trigger] rest[j]).0 == tail[i - 1].0;
                assert(fields[j + 1].0 == out[i].0);
            }
        }
        assert forall|i: int| 0 <= i < out.len() implies writable((#[trigger] out[i]).1) by {
            if i > 0 {
                assert(out[i] == tail[i - 1]);
            }
        }
    }
}

/// A document in canonical form names no field twice.
pub proof fn lemma_canonical_writable(j: JsonView)
    requires
        integral(j),
    ensures
        writable(canonical_form(j)),
    decreases j,
{
    match j {
        JsonView::List(items) => {
            assert(decreases_to!(j => j->List_0));
            lemma_canonical_list(items);
        },
        JsonView::Object(fields) => {
            assert(decreases_to!(j => j->Object_0));
            lemma_canonical_fields(fields);
            let out = canonical_fields(fields);
            assert forall|a: int, b: int| 0 <= a < b < out.len() implies (#[trigger] out[a]).0 != (
            #[trigger] out[b]).0 by {
                lemma_text_asymmetric(out[a].0, out[b].0);
            }
        },
        _ => {},
    }
}

proof fn lemma_canonical_list(items: Seq<JsonView>)
    requires
        forall|i: int| 0 <= i < items.len() ==> integral(#[trigger] items[i]),
    ensures
        canonical_list(items).len() == items.len(),
        forall|i: int| 0 <= i < items.len() ==> writable(#[trigger] canonical_list(items)[i]),
    decreases items,
{
    if items.len() > 0 {
        lemma_canonical_list(items.drop_last());
        lemma_canonical_writable(items.last());
    }
}

proof fn lemma_canonical_fields(fields: Seq<(Seq<char>, JsonView)>)
    requires
        forall|i: int| 0 <= i < fields.len() ==> integral((#[trigger] fields[i]).1),
    ensures
        sorted_fields(canonical_fields(fields)),
        forall|i: int|
            0 <= i < canonical_fields(fields).len() ==> writable(
                (#[trigger] canonical_fields(fields)[i]).1,
            ),
    decreases fields,
{
    if fields.len() > 0 {
        lemma_canonical_fields(fields.drop_last());
        lemma_canonical_writable(fields.last().1);
        lemma_insert_field(
            canonical_fields(fields.drop_last()),
            fields.last().0,
            canonical_form(fields.last().1),
        );
    }
}

proof fn lemma_insert_behind(
    fields: Seq<(Seq<char>, JsonView)>,
    key: Seq<char>,
    value: JsonView,
    p: int,
)
    requires
        0 <= p <= fields.len(),
        forall|j: int|
            0 <= j < p ==> (#[trigger] fields[j]).0 != key && !text_lt(key, fields[j].0),
    ensures
        insert_field(fields, key, value) == fields.take(p) + insert_field(
            fields.skip(p),
            key,
            value,
        ),
    decreases p,
{
    if p == 0 {
        assert(fields.skip(0) =~= fields);
        assert(fields.take(0) =~= Seq::empty());
        assert(insert_field(fields, key, value) =~= fields.take(p) + insert_field(
            fields.skip(p),
            key,
            value,
        ));
    } else {
        let rest = fields.drop_first();
        assert(fields[0].0 != key);
        assert forall|j: int| 0 <= j < p - 1 implies (#[trigger] rest[j]).0 != key && !text_lt(
            key,
            rest[j].0,
        ) by {
            assert(rest[j] == fields[j + 1]);
        }
        lemma_insert_behind(rest, key, value, p - 1);
        assert(rest.skip(p - 1) =~= fields.skip(p));
        assert(seq![fields[0]] + (rest.take(p - 1) + insert_field(fields.skip(p), key, value))
            =~= fields.take(p) + insert_field(fields.skip(p), key, value));
    }
}

/// Whether the values of all fields hold no decimal number.
pub open spec fn fields_integral(fields: Seq<(Seq<char>, JsonView)>) -> bool {
    forall|i: int| 0 <= i < fields.len() ==> integral((#[trigger] fields[i]).1)
}

/// Whether all items hold no decimal number.
pub open spec fn items_integral(items: Seq<JsonView>) -> bool {
    forall|i: int| 0 <= i < items.len() ==> integral(#[trigger] items[i])
}

/// Adds a field behind the others.
pub fn push_field(fields: &mut Vec<(String, Json)>, key: &str, value: Json)
    ensures
        fields_view(final(fields)@) == fields_view(old(fields)@).push((key@, value@)),
        fields_integral(fields_view(old(fields)@)) && integral(value@) ==> fields_integral(
            fields_view(final(fields)@),
        ),
{
    let ghost before = fields@;
    fields.push((key.to_owned(), value));
    proof {
        assert(fields@.drop_last() =~= before);
    }
}

/// Adds an item behind the others.
pub fn push_item(items: &mut Vec<Json>, value: Json)
    ensures
        list_view(final(items)@) == list_view(old(items)@).push(value@),
        items_integral(list_view(old(items)@)) && integral(value@) ==> items_integral(
            list_view(final(items)@),
        ),
{
    let ghost before = items@;
    items.push(value);
    proof {
        assert(items@.drop_last() =~= before);
    }
}

/// A string document.
pub fn text_json(s: &str) -> (r: Json)
    ensures
        r@ == JsonView::Text(s@),
        integral(r@),
{
    Json::Text(s.to_owned())
}

/// A number document.
pub fn number_json(n: u64) -> (r: Json)
    ensures
        r@ == JsonView::Unsigned(n),
        integral(r@),
{
    Json::Unsigned(n)
}

/// An object document.
pub fn object_json(fields: Vec<(String, Json)>) -> (r: Json)
    ensures
        r@ == JsonView::Object(fields_view(fields@)),
        fields_integral(fields_view(fields@)) ==> integral(r@),
{
    Json::Object(fields)
}

/// A list document.
pub fn list_json(items: Vec<Json>) -> (r: Json)
    ensures
        r@ == JsonView::List(list_view(items@)),
        items_integral(list_view(items@)) ==> integral(r@),
{
    Json::List(items)
}

/// Files `value` under `key` among fields in order.
fn put_field(fields: &mut Vec<(String, Json)>, key: &str, value: Json)
    ensures
        fields_view(final(fields)@) == insert_field(fields_view(old(fields)@), key@, value@),
{
    let ghost before = fields_view(fields@);
    proof {
        lemma_fields_view(fields@);
    }
    let mut i: usize = 0;
    while i < fields.len()
        invariant
            i <= fields@.len(),
            fields@ == old(fields)@,
            before == fields_view(fields@),
            before.len() == fields@.len(),
            forall|j: int|
                0 <= j < fields@.len() ==> #[trigger] before[j] == (fields@[j].0@, fields@[j].1@),
            forall|j: int|
                0 <= j < i ==> (#[trigger] before[j]).0 != key@ && !text_lt(key@, before[j].0),
        decreases fields@.len() - i,
    {
        proof {
            assert(before[i as int].0 == fields@[i as int].0@);
        }
        if same_text(fields[i].0.as_str(), key) {
            proof {
                lemma_insert_behind(before, key@, value@, i as int);
                assert(before.skip(i as int)[0] == before[i as int]);
            }
            fields.set(i, (key.to_owned(), value));
            proof {
                lemma_fields_view(fields@);
                assert(fields_view(fields@) =~= before.take(i as int) + before.skip(
                    i as int,
                ).update(0, (key@, value@)));
            }
            return;
        }
        if text_before(key, fields[i].0.as_str()) {
            proof {
                lemma_insert_behind(before, key@, value@, i as int);
                assert(before.skip(i as int)[0] == before[i as int]);
            }
            fields.insert(i, (key.to_owned(), value));
            proof {
                lemma_fields_view(fields@);
                assert(fields_view(fields@) =~= before.take(i as int) + (seq![(key@, value@)]
                    + before.skip(i as int)));
            }
            return;
        }
        i += 1;
    }
    proof {
        lemma_insert_behind(before, key@, value@, i as int);
        assert(before.skip(i as int) =~= Seq::empty());
    }
    fields.push((key.to_owned(), value));
    proof {
        lemma_fields_view(fields@);
        assert(fields_view(fields@) =~= before.take(i as int) + seq![(key@, value@)]);
    }
}

/// What each name says.
pub open spec fn name_views(names: Seq<&str>) -> Seq<Seq<char>> {
    Seq::new(names.len(), |i: int| names[i]@)
}

/// A record as an object. A list gives the first fields of the record in the order of their names,
/// `least` of them at the least; anything else stands as it is.
pub open spec fn shaped(j: JsonView, names: Seq<Seq<char>>, least: nat) -> Option<JsonView> {
    match j {
        JsonView::List(items) => if least <= items.len() <= names.len() {
            Some(JsonView::Object(Seq::new(items.len(), |i: int| (names[i], items[i]))))
        } else {
            None
        },
        _ => Some(j),
    }
}

/// Turns the list of a record's fields into an object.
pub fn shape(items: &Vec<Json>, names: &Vec<&str>, least: usize) -> (r: Option<Json>)
    ensures
        match r {
            Some(j) => shaped(
                JsonView::List(list_view(items@)),
                name_views(names@),
                least as nat,
            ) == Some(j@),
            None => shaped(
                JsonView::List(list_view(items@)),
                name_views(names@),
                least as nat,
            ) is None,
        },
{
    let ghost all = list_view(items@);
    proof {
        lemma_list_view(items@);
    }
    if items.len() < least || items.len() > names.len() {
        return None;
    }
    let ghost named = Seq::new(all.len(), |i: int| (names@[i]@, all[i]));
    let mut fields: Vec<(String, Json)> = Vec::new();
    let mut i: usize = 0;
    assert(fields_view(fields@) =~= named.take(0));
    while i < items.len()
        invariant
            i <= items@.len() <= names@.len(),
            all.len() == items@.len(),
            forall|k: int| 0 <= k < items@.len() ==> #[trigger] all[k] == items@[k]@,
            named == Seq::new(all.len(), |i: int| (names@[i]@, all[i])),
            fields_view(fields@) == named.take(i as int),
        decreases items@.len() - i,
    {
        push_field(&mut fields, names[i], items[i].duplicate());
        proof {
            assert(named.take(i + 1) =~= named.take(i as int).push(named[i as int]));
        }
        i += 1;
    }
    proof {
        assert(named.take(named.len() as int) =~= named);
        assert(named =~= Seq::new(all.len(), |i: int| (name_views(names@)[i], all[i])));
    }
    Some(object_json(fields))
}

/// What a `serde_json::Value` says.
pub uninterp spec fn value_contents(value: serde_json::Value) -> JsonView;

/// What `serde_json` reads from a text, when the text is one JSON document.
pub uninterp spec fn json_parsed(text: Seq<char>) -> Option<JsonView>;

/// The compact text that `serde_json` writes for a document.
pub uninterp spec fn json_written(document: JsonView) -> Seq<char>;

#[verifier::external_type_specification]
#[verifier::external_body]
pub struct ExJsonValue(serde_json::Value);

/// Calls `serde_json::from_str`. Claimed: whether the text is a document, and which one, is a
/// function of the text alone.
#[verifier::external_body]
fn parse_value(text: &str) -> (r: Option<serde_json::Value>)
    ensures
        match r {
            Some(value) => json_parsed(text@) == Some(value_contents(value)),
            None => json_parsed(text@) is None,
        },
{
    serde_json::from_str(text).ok()
}

/// Takes a `serde_json::Value` apart, variant by variant. Claimed: the document returned says
/// what the value says. An unsigned number is one that `as_u64` gives, a negative one is one
/// that only `as_i64` gives; any other number keeps its text.
#[verifier::external_body]
fn document_of(value: &serde_json::Value) -> (r: Json)
    ensures
        r@ == value_contents(*value),
{
    match value {
        Value::Null => Json::Null,
        Value::Bool(b) => Json::Bool(*b),
        Value::Number(n) => match (n.as_u64(), n.as_i64()) {
            (Some(u), _) => Json::Unsigned(u),
            (None, Some(i)) => Json::Negative(i),
            (None, None) => Json::Decimal(n.to_string()),
        },
        Value::String(s) => Json::Text(s.clone()),
        Value::Array(items) => Json::List(items.iter().map(document_of).collect()),
        Value::Object(fields) => Json::Object(
            fields.iter().map(|(key, item)| (key.clone(), document_of(item))).collect()),
    }
}

/// Calls `serde_json::Value::get`. Claimed: the value says what the field says, or is null when
/// there is no such field.
#[verifier::external_body]
fn field_value(value: &serde_json::Value, key: &str) -> (r: serde_json::Value)
    ensures
        value_contents(r) == value_contents(*value).at(key@),
{
    value.get(key).cloned().unwrap_or_default()
}

/// What each field says.
pub open spec fn value_fields(fields: Seq<(String, serde_json::Value)>) -> Seq<
    (Seq<char>, JsonView),
> {
    Seq::new(fields.len(), |i: int| (fields[i].0@, value_contents(fields[i].1)))
}

/// Collects fields into a `serde_json::Map`. Claimed: the object has exactly these fields, in this
/// order (`serde_json` is built with `preserve_order`). Two fields of one name would become one,
/// and are left out by `requires`.
#[verifier::external_body]
fn object_value(fields: Vec<(String, serde_json::Value)>) -> (r: serde_json::Value)
    requires
        distinct_keys(value_fields(fields@)),
    ensures
        value_contents(r) == JsonView::Object(value_fields(fields@)),
{
    serde_json::Value::Object(fields.into_iter().collect())
}

/// Puts a `serde_json::Value` together, variant by variant. Claimed: the value says what the
/// document says. `serde_json` is built with `preserve_order`, so an object keeps the order of
/// its fields; two fields of one name would become one, decimals and numbers that are negative in
/// name only would become something else, and all of these are left out by `requires`.
#[verifier::external_body]
fn value_of(document: &Json) -> (r: serde_json::Value)
    requires
        writable(document@),
    ensures
        value_contents(r) == document@,
{
    match document {
        Json::Null => Value::Null,
        Json::Bool(b) => Value::Bool(*b),
        Json::Unsigned(n) => Value::from(*n),
        Json::Negative(n) => Value::from(*n),
        Json::Decimal(s) => Value::String(s.clone()),
        Json::Text(s) => Value::String(s.clone()),
        Json::List(items) => Value::Array(items.iter().map(value_of).collect()),
        Json::Object(fields) => Value::Object(
            fields.iter().map(|field| (field.0.clone(), value_of(&field.1))).collect()),
    }
}

/// Calls `to_string` on a `serde_json::Value`, whose `Display` writes compact JSON. Claimed: there
/// is a text for every value, it is a function of what the value says, and reading the text of a
/// value without decimals gives back what the value says, as long as its nesting stays below the
/// depth at which `serde_json` stops reading and no field has the key that `serde_json` keeps for
/// itself.
#[verifier::external_body]
fn write_value(value: &serde_json::Value) -> (r: String)
    ensures
        r@ == json_written(value_contents(*value)),
        sound(value_contents(*value), 100) ==> json_parsed(r@) == Some(value_contents(*value)),
{
    value.to_string()
}

impl Json {
    /// Reads one document from a text.
    pub fn parse(text: &str) -> (r: Option<Json>)
        ensures
            match r {
                Some(document) => json_parsed(text@) == Some(document@),
                None => json_parsed(text@) is None,
            },
    {
        match parse_value(text) {
            Some(value) => Some(document_of(&value)),
            None => None,
        }
    }

    /// Writes the document as compact text, in which `parse` finds it again.
    pub fn write(&self) -> (r: String)
        requires
            writable(self@),
        ensures
            r@ == json_written(self@),
            sound(self@, 100) ==> json_parsed(r@) == Some(self@),
    {
        let value = value_of(self);
        write_value(&value)
    }

    /// The field `key`, when the document is an object that has it.
    pub fn get(&self, key: &str) -> (r: Option<&Json>)
        ensures
            match r {
                Some(value) => self@.get(key@) == Some(value@) && decreases_to!(self => value),
                None => self@.get(key@) is None,
            },
    {
        match self {
            Json::Object(fields) => {
                let ghost all = fields_view(fields@);
                proof {
                    lemma_fields_view(fields@);
                    assert(all.skip(0) =~= all);
                }
                let mut i: usize = 0;
                while i < fields.len()
                    invariant
                        i <= fields@.len(),
                        all == fields_view(fields@),
                        all.len() == fields@.len(),
                        self == Json::Object(*fields),
                        forall|j: int|
                            0 <= j < fields@.len() ==> #[trigger] all[j] == (
                                fields@[j].0@,
                                fields@[j].1@,
                            ),
                        lookup(all, key@) == lookup(all.skip(i as int), key@),
                    decreases fields@.len() - i,
                {
                    proof {
                        assert(all.skip(i as int).drop_first() =~= all.skip(i + 1));
                        assert(all[i as int].0 == fields@[i as int].0@);
                    }
                    if same_text(fields[i].0.as_str(), key) {
                        let value = &fields[i].1;
                        assert(decreases_to!(self => fields@[i as int].1));
                        return Some(value);
                    }
                    i += 1;
                }
                None
            },
            _ => None,
        }
    }

    /// The value of a number that fits in 64 unsigned bits.
    pub fn as_unsigned(&self) -> (r: Option<u64>)
        ensures
            r == self@.unsigned(),
    {
        match self {
            Json::Unsigned(n) => Some(*n),
            _ => None,
        }
    }

    /// The text of the field `key`.
    pub fn text_at(&self, key: &str) -> (r: Option<String>)
        ensures
            crate::text::option_view(r) == self@.text_at(key@),
    {
        match self.get(key) {
            Some(Json::Text(s)) => Some(s.clone()),
            _ => None,
        }
    }

    /// The text of the field `key`, which may be missing or null.
    pub fn optional_text_at(&self, key: &str) -> (r: Option<Option<String>>)
        ensures
            match r {
                Some(text) => self@.optional_text_at(key@) == Some(
                    crate::text::option_view(text),
                ),
                None => self@.optional_text_at(key@) is None,
            },
    {
        match self.get(key) {
            None => Some(None),
            Some(Json::Null) => Some(None),
            Some(Json::Text(s)) => Some(Some(s.clone())),
            Some(_) => None,
        }
    }

    /// The number of the field `key`.
    pub fn unsigned_at(&self, key: &str) -> (r: Option<u64>)
        ensures
            r == self@.unsigned_at(key@),
    {
        match self.get(key) {
            Some(Json::Unsigned(n)) => Some(*n),
            _ => None,
        }
    }

    /// The number of the field `key`, which may be missing or null.
    pub fn optional_unsigned_at(&self, key: &str) -> (r: Option<Option<u64>>)
        ensures
            r == self@.optional_unsigned_at(key@),
    {
        match self.get(key) {
            None => Some(None),
            Some(Json::Null) => Some(None),
            Some(Json::Unsigned(n)) => Some(Some(*n)),
            Some(_) => None,
        }
    }

    /// The name of the unit variant that the field `key` holds.
    pub fn variant_at(&self, key: &str) -> (r: Option<String>)
        ensures
            crate::text::option_view(r) == self@.variant_at(key@),
    {
        match self.get(key) {
            Some(Json::Text(s)) => Some(s.clone()),
            Some(Json::Object(fields)) => {
                proof {
                    lemma_fields_view(fields@);
                }
                if fields.len() == 1 {
                    match &fields[0].1 {
                        Json::Null => Some(fields[0].0.clone()),
                        _ => None,
                    }
                } else {
                    None
                }
            },
            _ => None,
        }
    }

    /// The number of the field `key`, which must fit in 32 bits.
    pub fn small_at(&self, key: &str) -> (r: Option<u32>)
        ensures
            r == self@.small_at(key@),
    {
        match self.unsigned_at(key) {
            Some(n) => if n <= u32::MAX as u64 {
                Some(n as u32)
            } else {
                None
            },
            None => None,
        }
    }

    /// The items of a list.
    pub fn as_list(&self) -> (r: Option<&Vec<Json>>)
        ensures
            match r {
                Some(items) => self@.list() == Some(list_view(items@)) && *self == Json::List(
                    *items,
                ),
                None => self@.list() is None,
            },
    {
        match self {
            Json::List(items) => Some(items),
            _ => None,
        }
    }

    /// The document with the fields of every object in the order of their keys.
    pub fn canonical(&self) -> (r: Json)
        ensures
            r@ == canonical_form(self@),
        decreases self,
    {
        match self {
            Json::List(items) => {
                let mut out: Vec<Json> = Vec::new();
                let mut i: usize = 0;
                while i < items.len()
                    invariant
                        i <= items@.len(),
                        self == Json::List(*items),
                        list_view(out@) == canonical_list(list_view(items@.take(i as int))),
                    decreases items@.len() - i,
                {
                    proof {
                        assert(decreases_to!(*self => self->List_0));
                        assert(decreases_to!(*items => items@));
                        assert(decreases_to!(items@ => items@[i as int]));
                    }
                    let ghost before = out@;
                    out.push(items[i].canonical());
                    proof {
                        assert(out@.drop_last() =~= before);
                        assert(items@.take(i + 1).drop_last() =~= items@.take(i as int));
                        let now = list_view(items@.take(i + 1));
                        assert(now.drop_last() =~= list_view(items@.take(i as int)));
                    }
                    i += 1;
                }
                proof {
                    assert(items@.take(items@.len() as int) =~= items@);
                }
                Json::List(out)
            },
            Json::Object(fields) => {
                let mut out: Vec<(String, Json)> = Vec::new();
                let mut i: usize = 0;
                while i < fields.len()
                    invariant
                        i <= fields@.len(),
                        self == Json::Object(*fields),
                        fields_view(out@) == canonical_fields(fields_view(fields@.take(i as int))),
                    decreases fields@.len() - i,
                {
                    proof {
                        assert(decreases_to!(*self => self->Object_0));
                        assert(decreases_to!(*fields => fields@));
                        assert(decreases_to!(fields@ => fields@[i as int]));
                        assert(decreases_to!(fields@[i as int] => fields@[i as int].1));
                    }
                    put_field(&mut out, fields[i].0.as_str(), fields[i].1.canonical());
                    proof {
                        assert(fields@.take(i + 1).drop_last() =~= fields@.take(i as int));
                        let now = fields_view(fields@.take(i + 1));
                        assert(now.drop_last() =~= fields_view(fields@.take(i as int)));
                    }
                    i += 1;
                }
                proof {
                    assert(fields@.take(fields@.len() as int) =~= fields@);
                }
                Json::Object(out)
            },
            _ => self.duplicate(),
        }
    }

    /// A second document that says the same.
    pub fn duplicate(&self) -> (r: Json)
        ensures
            r@ == self@,
        decreases self,
    {
        match self {
            Json::Null => Json::Null,
            Json::Bool(b) => Json::Bool(*b),
            Json::Unsigned(n) => Json::Unsigned(*n),
            Json::Negative(n) => Json::Negative(*n),
            Json::Decimal(s) => Json::Decimal(s.clone()),
            Json::Text(s) => Json::Text(s.clone()),
            Json::List(items) => {
                let mut out: Vec<Json> = Vec::new();
                let mut i: usize = 0;
                while i < items.len()
                    invariant
                        i <= items@.len(),
                        self == Json::List(*items),
                        out@.len() == i,
                        forall|j: int| 0 <= j < i ==> (#[trigger] out@[j])@ == items@[j]@,
                    decreases items@.len() - i,
                {
                    assert(decreases_to!(*self => self->List_0));
                    assert(decreases_to!(*items => items@));
                    assert(decreases_to!(items@ => items@[i as int]));
                    out.push(items[i].duplicate());
                    i += 1;
                }
                proof {
                    lemma_list_view(items@);
                    lemma_list_view(out@);
                    assert(list_view(items@) =~= list_view(out@));
                }
                Json::List(out)
            },
            Json::Object(fields) => {
                let mut out: Vec<(String, Json)> = Vec::new();
                let mut i: usize = 0;
                while i < fields.len()
                    invariant
                        i <= fields@.len(),
                        self == Json::Object(*fields),
                        out@.len() == i,
                        forall|j: int|
                            0 <= j < i ==> (#[trigger] out@[j]).0@ == fields@[j].0@ && out@[j].1@
                                == fields@[j].1@,
                    decreases fields@.len() - i,
                {
                    assert(decreases_to!(*self => self->Object_0));
                    assert(decreases_to!(*fields => fields@));
                    assert(decreases_to!(fields@ => fields@[i as int]));
                    assert(decreases_to!(fields@[i as int] => fields@[i as int].1));
                    out.push((fields[i].0.clone(), fields[i].1.duplicate()));
                    i += 1;
                }
                proof {
                    lemma_fields_view(fields@);
                    lemma_fields_view(out@);
                    assert(fields_view(fields@) =~= fields_view(out@));
                }
                Json::Object(out)
            },
        }
    }
}

/// A document as it was received, numbers and all.
#[derive(Debug, PartialEq, Eq)]
pub struct RawJson {
    value: serde_json::Value,
}

impl View for RawJson {
    type V = JsonView;

    closed spec fn view(&self) -> JsonView {
        value_contents(self.value)
    }
}

/// The length of the compact text of a document.
pub open spec fn written_len(document: JsonView) -> nat {
    crate::text::utf8_len(json_written(document))
}

impl RawJson {
    /// Reads one document from a text.
    pub fn parse(text: &str) -> (r: Option<RawJson>)
        ensures
            match r {
                Some(raw) => json_parsed(text@) == Some(raw@),
                None => json_parsed(text@) is None,
            },
    {
        match parse_value(text) {
            Some(value) => Some(RawJson { value }),
            None => None,
        }
    }

    /// The document.
    pub fn document(&self) -> (r: Json)
        ensures
            r@ == self@,
    {
        document_of(&self.value)
    }

    /// The length of the document's compact text.
    pub fn encoded_len(&self) -> (r: usize)
        ensures
            r == written_len(self@),
    {
        let text = write_value(&self.value);
        crate::text::byte_len(text.as_str())
    }

    /// The field `key`, or null.
    pub fn field(&self, key: &str) -> (r: RawJson)
        ensures
            r@ == self@.at(key@),
    {
        RawJson { value: field_value(&self.value, key) }
    }

    /// An object with a text and a document in it.
    pub fn tagged(tag: &str, text: &str, key: &str, body: RawJson) -> (r: RawJson)
        requires
            tag@ != key@,
        ensures
            r@ == JsonView::Object(seq![(tag@, JsonView::Text(text@)), (key@, body@)]),
    {
        let mut fields: Vec<(String, serde_json::Value)> = Vec::new();
        fields.push((tag.to_owned(), value_of(&Json::Text(text.to_owned()))));
        fields.push((key.to_owned(), body.value));
        proof {
            assert(value_fields(fields@) =~= seq![(tag@, JsonView::Text(text@)), (key@, body@)]);
        }
        RawJson { value: object_value(fields) }
    }

    /// An object with two texts and a document in it.
    pub fn tagged_twice(
        tag: &str,
        text: &str,
        label: &str,
        words: &str,
        key: &str,
        body: RawJson,
    ) -> (r: RawJson)
        requires
            tag@ != key@,
            tag@ != label@,
            label@ != key@,
        ensures
            r@ == JsonView::Object(
                seq![
                    (tag@, JsonView::Text(text@)),
                    (label@, JsonView::Text(words@)),
                    (key@, body@),
                ],
            ),
    {
        let mut fields: Vec<(String, serde_json::Value)> = Vec::new();
        fields.push((tag.to_owned(), value_of(&Json::Text(text.to_owned()))));
        fields.push((label.to_owned(), value_of(&Json::Text(words.to_owned()))));
        fields.push((key.to_owned(), body.value));
        proof {
            assert(value_fields(fields@) =~= seq![
                (tag@, JsonView::Text(text@)),
                (label@, JsonView::Text(words@)),
                (key@, body@),
            ]);
        }
        RawJson { value: object_value(fields) }
    }

    /// Writes the document as compact text.
    pub fn write(&self) -> (r: String)
        ensures
            r@ == json_written(self@),
    {
        write_value(&self.value)
    }
}

} // verus!

//! JSON documents.

use vstd::prelude::*;

verus! {

/// A JSON document as a mathematical value.
pub enum Json {
    Null,
    Bool(bool),
    Unsigned(nat),
    Negative(int),
    Decimal(Seq<char>),
    Text(Seq<char>),
    Array(Seq<Json>),
    Object(Map<Seq<char>, Json>),
}

/// A JSON number.
#[derive(Debug)]
pub enum Number {
    /// An integer from zero up.
    PosInt(u64),
    /// An integer that may be below zero. From zero up it is the same number as a
    /// `PosInt`.
    NegInt(i64),
    /// Any other number, by its decimal text.
    Float(String),
}

/// A JSON document.
#[derive(Debug)]
pub enum JsonValue {
    Null,
    Bool(bool),
    Number(Number),
    String(String),
    Array(Vec<JsonValue>),
    Object(Object),
}

/// The members of a JSON object, each name at most once.
#[derive(Debug)]
pub struct Object {
    entries: Vec<(String, JsonValue)>,
}

impl Number {
    pub open spec fn view(&self) -> Json {
        match self {
            Number::PosInt(n) => Json::Unsigned(*n as nat),
            Number::NegInt(n) => if *n >= 0 {
                Json::Unsigned(*n as nat)
            } else {
                Json::Negative(*n as int)
            },
            Number::Float(text) => Json::Decimal(text@),
        }
    }
}

/// The documents of a list.
pub open spec fn items_view(items: Seq<JsonValue>) -> Seq<Json>
    decreases items,
{
    if items.len() == 0 {
        Seq::empty()
    } else {
        items_view(items.drop_last()).push(items.last().view())
    }
}

spec fn entries_view(entries: Seq<(String, JsonValue)>) -> Map<Seq<char>, Json>
    decreases entries,
{
    if entries.len() == 0 {
        Map::empty()
    } else {
        entries_view(entries.drop_last()).insert(entries.last().0@, entries.last().1.view())
    }
}

impl JsonValue {
    pub open spec fn view(&self) -> Json
        decreases self,
    {
        match self {
            JsonValue::Null => Json::Null,
            JsonValue::Bool(b) => Json::Bool(*b),
            JsonValue::Number(n) => n@,
            JsonValue::String(text) => Json::Text(text@),
            JsonValue::Array(items) => Json::Array(items_view(items@)),
            JsonValue::Object(object) => Json::Object(object.view()),
        }
    }
}

impl Object {
    /// The document behind each name.
    pub closed spec fn view(&self) -> Map<Seq<char>, Json>
        decreases self,
    {
        entries_view(self.entries@)
    }

    #[verifier::type_invariant]
    spec fn distinct(&self) -> bool {
        forall|i: int, j: int|
            0 <= i < j < self.entries@.len() ==> (#[trigger] self.entries@[i]).0@ != (
            #[trigger] self.entries@[j]).0@
    }
}

/// A list of documents, document by document.
pub proof fn lemma_items_view(items: Seq<JsonValue>)
    ensures
        items_view(items).len() == items.len(),
        forall|i: int| 0 <= i < items.len() ==> #[trigger] items_view(items)[i] == items[i]@,
    decreases items.len(),
{
    if items.len() > 0 {
        lemma_items_view(items.drop_last());
    }
}

/// Appending a document to a list.
pub proof fn lemma_items_view_push(items: Seq<JsonValue>, item: JsonValue)
    ensures
        items_view(items.push(item)) == items_view(items).push(item@),
{
    assert(items.push(item).drop_last() == items);
}

/// The text that serde_json writes for a document: compact, without spaces, the
/// members of an object in the order of their names.
pub uninterp spec fn json_text(document: Json) -> Seq<char>;

/// The document that serde_json reads from a text, if the text is one.
pub uninterp spec fn json_parse(text: Seq<char>) -> Option<Json>;

/// The document type of serde_json.
#[verifier::external_type_specification]
#[verifier::external_body]
pub struct ExDocument(serde_json::Value);

/// `serde_json::Value::from` and its `FromIterator`: a document as serde_json
/// holds it, part by part. Nothing is claimed of the result by itself; what is
/// written of it is named with [`write_json`]. A decimal text that is not a
/// number becomes `null`, as serde_json itself does with a number it cannot hold.
#[verifier::external_body]
fn to_serde(value: &JsonValue) -> (document: serde_json::Value) {
    match value {
        JsonValue::Null => serde_json::Value::Null,
        JsonValue::Bool(b) => serde_json::Value::from(*b),
        JsonValue::Number(Number::PosInt(n)) => serde_json::Value::from(*n),
        JsonValue::Number(Number::NegInt(n)) => serde_json::Value::from(*n),
        JsonValue::Number(Number::Float(text)) => text.parse().ok().and_then(serde_json::Number::from_f64).into(),
        JsonValue::String(text) => serde_json::Value::from(text.as_str()),
        JsonValue::Array(items) => items.iter().map(to_serde).collect(),
        JsonValue::Object(object) => object.entries.iter().map(|(name, value)| (name.as_str(), to_serde(value))).collect(),
    }
}

/// The variants of `serde_json::Value`, and `as_u64`, `as_i64` and `to_string` of
/// its numbers: a document of serde_json, part by part. Nothing is claimed of the
/// result by itself; what is read is named with [`read_json`].
#[verifier::external_body]
fn from_serde(document: serde_json::Value) -> (value: JsonValue) {
    match document {
        serde_json::Value::Null => JsonValue::Null,
        serde_json::Value::Bool(b) => JsonValue::Bool(b),
        serde_json::Value::Number(n) => JsonValue::Number(match (n.as_u64(), n.as_i64()) {
            (Some(n), _) => Number::PosInt(n),
            (_, Some(n)) => Number::NegInt(n),
            _ => Number::Float(n.to_string()),
        }),
        serde_json::Value::String(text) => JsonValue::String(text),
        serde_json::Value::Array(items) => JsonValue::Array(items.into_iter().map(from_serde).collect()),
        serde_json::Value::Object(map) => JsonValue::Object(Object { entries: map.into_iter().map(|(k, v)| (k, from_serde(v))).collect() }),
    }
}

/// `serde_json::Value::to_string`: the text is the one named `json_text` of the
/// document.
#[verifier::external_body]
fn write_json(value: &JsonValue) -> (text: String)
    ensures
        text@ == json_text(value@),
{
    to_serde(value).to_string()
}

/// `serde_json::from_str` into a document: what it reads is the one named
/// `json_parse` of the text, and it fails where there is none.
#[verifier::external_body]
fn read_json(text: &str) -> (value: Option<JsonValue>)
    ensures
        match value {
            Some(value) => json_parse(text@) == Some(value@),
            None => json_parse(text@) is None,
        },
{
    serde_json::from_str(text).ok().map(from_serde)
}

impl JsonValue {
    /// A JSON string.
    pub fn text(text: &str) -> (value: JsonValue)
        ensures
            value@ == Json::Text(text@),
    {
        JsonValue::String(text.to_owned())
    }

    /// The document as compact JSON text.
    pub fn to_text(&self) -> (text: String)
        ensures
            text@ == json_text(self@),
    {
        write_json(self)
    }

    /// Read a document from JSON text. `None` if the text is not valid JSON.
    pub fn parse(text: &str) -> (value: Option<JsonValue>)
        ensures
            match value {
                Some(value) => json_parse(text@) == Some(value@),
                None => json_parse(text@) is None,
            },
    {
        read_json(text)
    }
}

impl Clone for Number {
    fn clone(&self) -> (copy: Self)
        ensures
            copy@ == self@,
    {
        match self {
            Number::PosInt(n) => Number::PosInt(*n),
            Number::NegInt(n) => Number::NegInt(*n),
            Number::Float(text) => Number::Float(text.clone()),
        }
    }
}

impl Clone for JsonValue {
    fn clone(&self) -> (copy: Self)
        ensures
            copy@ == self@,
        decreases self,
    {
        match self {
            JsonValue::Null => JsonValue::Null,
            JsonValue::Bool(b) => JsonValue::Bool(*b),
            JsonValue::Number(n) => JsonValue::Number(n.clone()),
            JsonValue::String(text) => JsonValue::String(text.clone()),
            JsonValue::Array(items) => {
                let mut copies: Vec<JsonValue> = Vec::new();
                let mut i: usize = 0;
                while i < items.len()
                    invariant
                        i <= items.len(),
                        items_view(copies@) == items_view(items@.take(i as int)),
                        decreases_to!(self => items),
                    decreases items.len() - i,
                {
                    let copy = items[i].clone();
                    proof {
                        lemma_items_view_push(copies@, copy);
                        lemma_items_view_push(items@.take(i as int), items@[i as int]);
                        assert(items@.take(i as int).push(items@[i as int]) == items@.take(i + 1));
                    }
                    copies.push(copy);
                    i = i + 1;
                }
                assert(items@.take(items@.len() as int) == items@);
                JsonValue::Array(copies)
            },
            JsonValue::Object(object) => JsonValue::Object(object.clone()),
        }
    }
}

impl Clone for Object {
    fn clone(&self) -> (copy: Self)
        ensures
            copy@ == self@,
        decreases self,
    {
        let mut copies: Vec<(String, JsonValue)> = Vec::new();
        let mut i: usize = 0;
        while i < self.entries.len()
            invariant
                i <= self.entries.len(),
                copies.len() == i,
                forall|j: int| 0 <= j < i ==> (#[trigger] copies@[j]).0@ == self.entries@[j].0@,
                entries_view(copies@) == entries_view(self.entries@.take(i as int)),
            decreases self.entries.len() - i,
        {
            let entry = (self.entries[i].0.clone(), self.entries[i].1.clone());
            proof {
                assert(copies@.push(entry).drop_last() == copies@);
                assert(self.entries@.take(i + 1).drop_last() == self.entries@.take(i as int));
            }
            copies.push(entry);
            i = i + 1;
        }
        assert(self.entries@.take(self.entries@.len() as int) == self.entries@);
        proof {
            use_type_invariant(self);
        }
        Object { entries: copies }
    }
}

/// The members of a list, one by one: each name of the list has the document of
/// the last entry under it, and no other name is there.
proof fn lemma_entries_view(entries: Seq<(String, JsonValue)>)
    ensures
        forall|i: int|
            0 <= i < entries.len() ==> entries_view(entries).dom().contains(
                (#[trigger] entries[i]).0@,
            ),
        forall|name: Seq<char>| #[trigger]
            entries_view(entries).dom().contains(name) ==> exists|i: int|
                0 <= i < entries.len() && (#[trigger] entries[i]).0@ == name && entries_view(
                    entries,
                )[name] == entries[i].1@,
    decreases entries.len(),
{
    if entries.len() > 0 {
        let rest = entries.drop_last();
        lemma_entries_view(rest);
        assert forall|i: int| 0 <= i < entries.len() implies entries_view(entries).dom().contains(
            (#[trigger] entries[i]).0@,
        ) by {
            if i < rest.len() {
                assert(rest[i] == entries[i]);
            }
        }
        assert forall|name: Seq<char>| #[trigger]
            entries_view(entries).dom().contains(name) implies exists|i: int|
            0 <= i < entries.len() && (#[trigger] entries[i]).0@ == name && entries_view(
                entries,
            )[name] == entries[i].1@ by {
            if name == entries.last().0@ {
                assert(entries[entries.len() - 1].0@ == name);
            } else {
                let i = choose|i: int|
                    0 <= i < rest.len() && (#[trigger] rest[i]).0@ == name && entries_view(
                        rest,
                    )[name] == rest[i].1@;
                assert(entries[i] == rest[i]);
            }
        }
    }
}

/// Replacing the document of the entry at `at`, whose name is the only one of
/// its kind, replaces the document under that name.
proof fn lemma_entries_view_update(
    entries: Seq<(String, JsonValue)>,
    at: int,
    entry: (String, JsonValue),
)
    requires
        0 <= at < entries.len(),
        entry.0@ == entries[at].0@,
        forall|i: int| at < i < entries.len() ==> (#[trigger] entries[i]).0@ != entry.0@,
    ensures
        entries_view(entries.update(at, entry)) == entries_view(entries).insert(entry.0@, entry.1@),
    decreases entries.len(),
{
    let updated = entries.update(at, entry);
    if at == entries.len() - 1 {
        assert(updated.drop_last() == entries.drop_last());
        assert(entries_view(updated) == entries_view(entries).insert(entry.0@, entry.1@));
    } else {
        let rest = entries.drop_last();
        lemma_entries_view_update(rest, at, entry);
        assert(updated.drop_last() == rest.update(at, entry));
        assert(entries.last() == entries[entries.len() - 1]);
        assert(entries_view(updated) == entries_view(entries).insert(entry.0@, entry.1@));
    }
}

impl Object {
    /// An object without members.
    pub fn new() -> (object: Object)
        ensures
            object@ == Map::<Seq<char>, Json>::empty(),
    {
        Object { entries: Vec::new() }
    }

    /// Where the member `name` stands.
    fn position(&self, name: &str) -> (place: Option<usize>)
        ensures
            match place {
                Some(at) => {
                    &&& at < self.entries@.len()
                    &&& self.entries@[at as int].0@ == name@
                    &&& self@.dom().contains(name@)
                    &&& self@[name@] == self.entries@[at as int].1@
                },
                None => {
                    &&& !self@.dom().contains(name@)
                    &&& forall|i: int|
                        0 <= i < self.entries@.len() ==> (#[trigger] self.entries@[i]).0@ != name@
                },
            },
    {
        proof {
            use_type_invariant(self);
            lemma_entries_view(self.entries@);
        }
        let mut i: usize = 0;
        while i < self.entries.len()
            invariant
                i <= self.entries.len(),
                forall|j: int| 0 <= j < i ==> (#[trigger] self.entries@[j]).0@ != name@,
                self.distinct(),
                forall|i: int|
                    0 <= i < self.entries@.len() ==> self@.dom().contains(
                        (#[trigger] self.entries@[i]).0@,
                    ),
                forall|name: Seq<char>| #[trigger]
                    self@.dom().contains(name) ==> exists|i: int|
                        0 <= i < self.entries@.len() && (#[trigger] self.entries@[i]).0@ == name
                            && self@[name] == self.entries@[i].1@,
            decreases self.entries.len() - i,
        {
            if crate::text::same_text(self.entries[i].0.as_str(), name) {
                return Some(i);
            }
            i = i + 1;
        }
        None
    }

    /// Add the member `name`, or replace its document.
    pub fn insert(&mut self, name: String, value: JsonValue)
        ensures
            final(self)@ == old(self)@.insert(name@, value@),
    {
        let place = self.position(name.as_str());
        proof {
            use_type_invariant(&*self);
        }
        let mut entries: Vec<(String, JsonValue)> = Vec::new();
        std::mem::swap(&mut entries, &mut self.entries);
        match place {
            Some(at) => {
                proof {
                    lemma_entries_view_update(entries@, at as int, (name, value));
                }
                entries[at] = (name, value);
            },
            None => {
                entries.push((name, value));
                assert(entries@.drop_last() == old(self).entries@);
            },
        }
        self.entries = entries;
    }

    /// The object with the member `name` added or replaced.
    pub fn with(self, name: &str, value: JsonValue) -> (object: Object)
        ensures
            object@ == self@.insert(name@, value@),
    {
        let mut object = self;
        object.insert(name.to_owned(), value);
        object
    }

    /// The document of the member `name`, if there is one.
    pub fn get(&self, name: &str) -> (value: Option<&JsonValue>)
        ensures
            match value {
                Some(value) => self@.dom().contains(name@) && self@[name@] == value@,
                None => !self@.dom().contains(name@),
            },
    {
        match self.position(name) {
            Some(at) => Some(&self.entries[at].1),
            None => None,
        }
    }

    /// Whether there is a member `name`.
    pub fn contains_key(&self, name: &str) -> (there: bool)
        ensures
            there == self@.dom().contains(name@),
    {
        self.position(name).is_some()
    }

    /// Add every member of `other`, replacing those of the same name.
    pub fn merge(&mut self, other: &Object)
        ensures
            final(self)@ == old(self)@.union_prefer_right(other@),
    {
        let mut i: usize = 0;
        assert(self@ == old(self)@.union_prefer_right(entries_view(other.entries@.take(0))));
        while i < other.entries.len()
            invariant
                i <= other.entries.len(),
                self@ == old(self)@.union_prefer_right(entries_view(other.entries@.take(i as int))),
            decreases other.entries.len() - i,
        {
            assert(other.entries@.take(i + 1).drop_last() == other.entries@.take(i as int));
            self.insert(other.entries[i].0.clone(), other.entries[i].1.clone());
            i = i + 1;
            assert(self@ == old(self)@.union_prefer_right(
                entries_view(other.entries@.take(i as int)),
            ));
        }
        assert(other.entries@.take(other.entries@.len() as int) == other.entries@);
    }

    /// The members as a list, each name once.
    pub fn into_entries(self) -> (entries: Vec<(String, JsonValue)>)
        ensures
            forall|i: int, j: int|
                0 <= i < j < entries@.len() ==> (#[trigger] entries@[i]).0@ != (
                #[trigger] entries@[j]).0@,
            forall|i: int|
                0 <= i < entries@.len() ==> self@.dom().contains((#[trigger] entries@[i]).0@)
                    && self@[entries@[i].0@] == entries@[i].1@,
            forall|name: Seq<char>| #[trigger]
                self@.dom().contains(name) ==> exists|i: int|
                    0 <= i < entries@.len() && (#[trigger] entries@[i]).0@ == name,
    {
        proof {
            use_type_invariant(&self);
            lemma_entries_view(self.entries@);
        }
        self.entries
    }
}

} // verus!

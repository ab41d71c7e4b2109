//! JSON values as the library reads and builds them, with a mathematical view.
//!
//! A value mirrors the shape of a `serde_json::Value`: numbers keep the three
//! representations serde_json distinguishes, and an object is a list of
//! entries whose keys are distinct.

use vstd::prelude::*;
use crate::text::copy_str;
use serde_json::Value;


verus! {

broadcast use {vstd::string::group_string_axioms, vstd::std_specs::vec::group_vec_axioms};

/// A JSON number: a non-negative integer, a negative integer, or a
/// floating-point number kept as its shortest decimal text.
#[derive(Debug)]
pub enum JsonNumber {
    PosInt(u64),
    NegInt(i64),
    Float(String),
}

/// A JSON value.
#[derive(Debug)]
pub enum Json {
    Null,
    Bool(bool),
    Number(JsonNumber),
    Str(String),
    Array(Vec<Json>),
    Object(Vec<(String, Json)>),
}

pub enum NumberView {
    PosInt(u64),
    NegInt(i64),
    Float(Seq<char>),
}

/// The mathematical content of a JSON value.
pub enum JsonView {
    Null,
    Bool(bool),
    Number(NumberView),
    Str(Seq<char>),
    Array(Seq<JsonView>),
    Object(Seq<(Seq<char>, JsonView)>),
}

impl View for JsonNumber {
    type V = NumberView;

    open spec fn view(&self) -> NumberView {
        match self {
            JsonNumber::PosInt(n) => NumberView::PosInt(*n),
            JsonNumber::NegInt(n) => NumberView::NegInt(*n),
            JsonNumber::Float(s) => NumberView::Float(s@),
        }
    }
}

pub open spec fn view_of(j: Json) -> JsonView
    decreases j,
{
    match j {
        Json::Null => JsonView::Null,
        Json::Bool(b) => JsonView::Bool(b),
        Json::Number(n) => JsonView::Number(n@),
        Json::Str(s) => JsonView::Str(s@),
        Json::Array(v) => JsonView::Array(views_of(v@)),
        Json::Object(e) => JsonView::Object(entry_views(e@)),
    }
}

pub open spec fn views_of(s: Seq<Json>) -> Seq<JsonView>
    decreases s,
{
    if s.len() == 0 {
        Seq::empty()
    } else {
        proof {
            vstd::seq::axiom_seq_len_decreases(s, s.drop_last());
        }
        views_of(s.drop_last()).push(view_of(s.last()))
    }
}

pub open spec fn entry_views(s: Seq<(String, Json)>) -> Seq<(Seq<char>, JsonView)>
    decreases s,
{
    if s.len() == 0 {
        Seq::empty()
    } else {
        proof {
            vstd::seq::axiom_seq_len_decreases(s, s.drop_last());
        }
        entry_views(s.drop_last()).push((s.last().0@, view_of(s.last().1)))
    }
}

impl View for Json {
    type V = JsonView;

    open spec fn view(&self) -> JsonView {
        view_of(*self)
    }
}

/// The value stored under `key` in an object's entries: the first entry with that key.
pub open spec fn lookup(e: Seq<(Seq<char>, JsonView)>, key: Seq<char>) -> Option<JsonView>
    decreases e.len(),
{
    if e.len() == 0 {
        None
    } else if e[0].0 == key {
        Some(e[0].1)
    } else {
        lookup(e.drop_first(), key)
    }
}

/// `value.get(key)`: the member `key` of an object; nothing for other values.
pub open spec fn field(j: JsonView, key: Seq<char>) -> Option<JsonView> {
    match j {
        JsonView::Object(e) => lookup(e, key),
        _ => None,
    }
}

/// `as_str` of an optional value.
pub open spec fn as_text(j: Option<JsonView>) -> Option<Seq<char>> {
    match j {
        Some(JsonView::Str(s)) => Some(s),
        _ => None,
    }
}

/// `as_u64` of an optional value.
pub open spec fn as_u64_of(j: Option<JsonView>) -> Option<u64> {
    match j {
        Some(JsonView::Number(NumberView::PosInt(n))) => Some(n),
        _ => None,
    }
}

/// The text member `key` of `j`, if it is present and a string.
pub open spec fn text_field(j: JsonView, key: Seq<char>) -> Option<Seq<char>> {
    as_text(field(j, key))
}

/// `j.get(k1).and_then(|x| x.get(k2))`.
pub open spec fn field2(j: JsonView, k1: Seq<char>, k2: Seq<char>) -> Option<JsonView> {
    match field(j, k1) {
        Some(x) => field(x, k2),
        None => None,
    }
}

/// The member `key`, or `null` when it is absent (`get(key).cloned().unwrap_or(Value::Null)`).
pub open spec fn field_or_null(j: JsonView, key: Seq<char>) -> JsonView {
    match field(j, key) {
        Some(x) => x,
        None => JsonView::Null,
    }
}

/// The text, or `default` when there is none (`unwrap_or(default)`).
pub open spec fn text_or(t: Option<Seq<char>>, default: Seq<char>) -> Seq<char> {
    match t {
        Some(s) => s,
        None => default,
    }
}

pub open spec fn opt_view(r: Option<&Json>) -> Option<JsonView> {
    match r {
        Some(x) => Some(x@),
        None => None,
    }
}

/// Entries with `key` set to `value`: the first entry with that key is replaced,
/// or the pair is appended when there is none.
pub open spec fn insert_entry(
    e: Seq<(Seq<char>, JsonView)>,
    key: Seq<char>,
    value: JsonView,
) -> Seq<(Seq<char>, JsonView)>
    decreases e.len(),
{
    if e.len() == 0 {
        seq![(key, value)]
    } else if e[0].0 == key {
        e.update(0, (key, value))
    } else {
        seq![e[0]] + insert_entry(e.drop_first(), key, value)
    }
}

pub proof fn lemma_views_of(s: Seq<Json>)
    ensures
        views_of(s).len() == s.len(),
        forall|i: int| 0 <= i < s.len() ==> #[trigger] views_of(s)[i] == view_of(s[i]),
    decreases s.len(),
{
    if s.len() > 0 {
        lemma_views_of(s.drop_last());
    }
}

pub proof fn lemma_entry_views(s: Seq<(String, Json)>)
    ensures
        entry_views(s).len() == s.len(),
        forall|i: int|
            0 <= i < s.len() ==> #[trigger] entry_views(s)[i] == (s[i].0@, view_of(s[i].1)),
    decreases s.len(),
{
    if s.len() > 0 {
        lemma_entry_views(s.drop_last());
    }
}

proof fn lemma_lookup_skip(e: Seq<(Seq<char>, JsonView)>, key: Seq<char>, i: int)
    requires
        0 <= i < e.len(),
        e[i].0 != key,
    ensures
        lookup(e.skip(i), key) == lookup(e.skip(i + 1), key),
{
    assert(e.skip(i).drop_first() =~= e.skip(i + 1));
}

proof fn lemma_insert_entry_at(
    e: Seq<(Seq<char>, JsonView)>,
    key: Seq<char>,
    value: JsonView,
    i: int,
)
    requires
        0 <= i <= e.len(),
        forall|j: int| 0 <= j < i ==> e[j].0 != key,
        i == e.len() || e[i].0 == key,
    ensures
        insert_entry(e, key, value) == if i == e.len() {
            e.push((key, value))
        } else {
            e.update(i, (key, value))
        },
    decreases i,
{
    if i == 0 {
        if e.len() == 0 {
            assert(seq![(key, value)] =~= e.push((key, value)));
        }
    } else {
        lemma_insert_entry_at(e.drop_first(), key, value, i - 1);
        if i == e.len() {
            assert(seq![e[0]] + e.drop_first().push((key, value)) =~= e.push((key, value)));
        } else {
            assert(seq![e[0]] + e.drop_first().update(i - 1, (key, value)) =~= e.update(
                i,
                (key, value),
            ));
        }
    }
}

/// Looking up the key just set gives its new value; other keys are unaffected.
pub proof fn lemma_insert_entry_lookup(
    e: Seq<(Seq<char>, JsonView)>,
    key: Seq<char>,
    value: JsonView,
    other: Seq<char>,
)
    ensures
        lookup(insert_entry(e, key, value), key) == Some(value),
        other != key ==> lookup(insert_entry(e, key, value), other) == lookup(e, other),
    decreases e.len(),
{
    if e.len() == 0 {
        let r = insert_entry(e, key, value);
        assert(r[0] == (key, value));
        assert(r.drop_first() =~= Seq::<(Seq<char>, JsonView)>::empty());
        if other != key {
            assert(lookup(r, other) == lookup(r.drop_first(), other));
        }
    } else if e[0].0 != key {
        lemma_insert_entry_lookup(e.drop_first(), key, value, other);
        let r = insert_entry(e, key, value);
        assert(r[0] == e[0]);
        assert(r.drop_first() =~= insert_entry(e.drop_first(), key, value));
    } else {
        let r = insert_entry(e, key, value);
        assert(r[0] == (key, value));
        assert(r.drop_first() =~= e.drop_first());
        if other != key {
            assert(lookup(r, other) == lookup(r.drop_first(), other));
        }
    }
}

impl Json {
    /// `value.get(key)`.
    #[verifier::loop_isolation(false)]
    pub fn get(&self, key: &str) -> (r: Option<&Json>)
        ensures
            opt_view(r) == field(self@, key@),
    {
        match self {
            Json::Object(entries) => {
                proof {
                    lemma_entry_views(entries@);
                }
                let ghost ev = entry_views(entries@);
                let mut i: usize = 0;
                assert(ev.skip(0) =~= ev);
                while i < entries.len()
                    invariant
                        i <= entries.len(),
                        ev == entry_views(entries@),
                        ev.len() == entries.len(),
                        forall|k: int|
                            0 <= k < entries.len() ==> #[trigger] ev[k] == (
                                entries@[k].0@,
                                view_of(entries@[k].1),
                            ),
                        lookup(ev, key@) == lookup(ev.skip(i as int), key@),
                    decreases entries.len() - i,
                {
                    if crate::text::str_eq(entries[i].0.as_str(), key) {
                        assert(ev.skip(i as int)[0] == ev[i as int]);
                        assert(ev.skip(i as int).len() > 0);
                        assert(view_of(*self) == JsonView::Object(entry_views(entries@)));
                        return Some(&entries[i].1);
                    }
                    proof {
                        lemma_lookup_skip(ev, key@, i as int);
                    }
                    i += 1;
                }
                assert(ev.skip(i as int) =~= Seq::<(Seq<char>, JsonView)>::empty());
                assert(view_of(*self) == JsonView::Object(entry_views(entries@)));
                None
            },
            _ => None,
        }
    }

    /// `value.as_str()`.
    pub fn as_str(&self) -> (r: Option<&String>)
        ensures
            match r {
                Some(s) => as_text(Some(self@)) == Some(s@),
                None => as_text(Some(self@)) is None,
            },
    {
        match self {
            Json::Str(s) => Some(s),
            _ => None,
        }
    }

    /// `value.as_u64()`.
    pub fn as_u64(&self) -> (r: Option<u64>)
        ensures
            r == as_u64_of(Some(self@)),
    {
        match self {
            Json::Number(JsonNumber::PosInt(n)) => Some(*n),
            _ => None,
        }
    }

    /// `value.as_array()`.
    pub fn as_array(&self) -> (r: Option<&Vec<Json>>)
        ensures
            match r {
                Some(v) => self@ == JsonView::Array(views_of(v@)),
                None => !(self@ is Array),
            },
    {
        match self {
            Json::Array(v) => Some(v),
            _ => None,
        }
    }

    /// `value.get(key).and_then(|v| v.as_str())`.
    pub fn get_str(&self, key: &str) -> (r: Option<&String>)
        ensures
            match r {
                Some(s) => text_field(self@, key@) == Some(s@),
                None => text_field(self@, key@) is None,
            },
    {
        match self.get(key) {
            Some(v) => v.as_str(),
            None => None,
        }
    }

    /// `value.get(key).and_then(|v| v.as_str()).unwrap_or(default).to_string()`.
    pub fn get_str_or(&self, key: &str, default: &str) -> (r: String)
        ensures
            r@ == text_or(text_field(self@, key@), default@),
    {
        match self.get_str(key) {
            Some(s) => s.clone(),
            None => copy_str(default),
        }
    }

    /// An independent copy of the value.
    #[verifier::loop_isolation(false)]
    pub fn deep_clone(&self) -> (r: Json)
        ensures
            r@ == self@,
        decreases self,
    {
        match self {
            Json::Null => Json::Null,
            Json::Bool(b) => Json::Bool(*b),
            Json::Number(JsonNumber::PosInt(n)) => Json::Number(JsonNumber::PosInt(*n)),
            Json::Number(JsonNumber::NegInt(n)) => Json::Number(JsonNumber::NegInt(*n)),
            Json::Number(JsonNumber::Float(s)) => Json::Number(JsonNumber::Float(s.clone())),
            Json::Str(s) => Json::Str(s.clone()),
            Json::Array(v) => {
                let mut out: Vec<Json> = Vec::new();
                let mut i: usize = 0;
                while i < v.len()
                    invariant
                        i <= v.len(),
                        views_of(out@) == views_of(v@.take(i as int)),
                    decreases v.len() - i,
                {
                    assert(decreases_to!(*self => *v));
                    assert(decreases_to!(*v => v@));
                    assert(decreases_to!(v@ => v@[i as int]));
                    assert(decreases_to!(*self => v@[i as int]));
                    let c = v[i].deep_clone();
                    proof {
                        assert(out@.push(c).drop_last() =~= out@);
                        assert(v@.take(i + 1).drop_last() =~= v@.take(i as int));
                    }
                    out.push(c);
                    i += 1;
                }
                assert(v@.take(v.len() as int) =~= v@);
                Json::Array(out)
            },
            Json::Object(e) => {
                let mut out: Vec<(String, Json)> = Vec::new();
                let mut i: usize = 0;
                while i < e.len()
                    invariant
                        i <= e.len(),
                        entry_views(out@) == entry_views(e@.take(i as int)),
                    decreases e.len() - i,
                {
                    assert(decreases_to!(*e => e@));
                    assert(decreases_to!(e@ => e@[i as int]));
                    assert(decreases_to!(e@[i as int] => e@[i as int].1));
                    assert(decreases_to!(*self => *e));
                    assert(decreases_to!(*self => e@[i as int].1));
                    let c = e[i].1.deep_clone();
                    let k = e[i].0.clone();
                    proof {
                        assert(out@.push((k, c)).drop_last() =~= out@);
                        assert(e@.take(i + 1).drop_last() =~= e@.take(i as int));
                    }
                    out.push((k, c));
                    i += 1;
                }
                assert(e@.take(e.len() as int) =~= e@);
                Json::Object(out)
            },
        }
    }

    /// The member `key`, or `null` when absent (`get(key).cloned().unwrap_or(Value::Null)`).
    pub fn get_or_null(&self, key: &str) -> (r: Json)
        ensures
            r@ == field_or_null(self@, key@),
    {
        match self.get(key) {
            Some(v) => v.deep_clone(),
            None => Json::Null,
        }
    }

    /// A string value.
    pub fn text(s: &str) -> (r: Json)
        ensures
            r@ == JsonView::Str(s@),
    {
        Json::Str(copy_str(s))
    }

    /// Sets `key` to `value` in an object (`Map::insert`); other values are left as they are.
    pub fn insert(&mut self, key: String, value: Json)
        ensures
            match old(self)@ {
                JsonView::Object(e) => final(self)@ == JsonView::Object(
                    insert_entry(e, key@, value@),
                ),
                _ => final(self)@ == old(self)@,
            },
    {
        if let Json::Object(entries) = self {
            proof {
                lemma_entry_views(entries@);
            }
            let ghost ev = entry_views(entries@);
            let mut i: usize = 0;
            while i < entries.len() && !crate::text::str_eq(entries[i].0.as_str(), key.as_str())
                invariant
                    i <= entries.len(),
                    ev == entry_views(entries@),
                    ev.len() == entries.len(),
                    forall|k: int|
                        0 <= k < entries.len() ==> #[trigger] ev[k] == (
                            entries@[k].0@,
                            view_of(entries@[k].1),
                        ),
                    forall|k: int| 0 <= k < i ==> ev[k].0 != key@,
                decreases entries.len() - i,
            {
                i += 1;
            }
            proof {
                lemma_insert_entry_at(ev, key@, value@, i as int);
            }
            if i < entries.len() {
                entries.set(i, (key, value));
                proof {
                    lemma_entry_views(entries@);
                    assert(entry_views(entries@) =~= ev.update(i as int, (key@, value@)));
                }
            } else {
                entries.push((key, value));
                proof {
                    lemma_entry_views(entries@);
                    assert(entry_views(entries@) =~= ev.push((key@, value@)));
                }
            }
        }
    }
}

/// `Some(j@)` of an optional value.
pub open spec fn opt_json_view(o: Option<Json>) -> Option<JsonView> {
    match o {
        Some(j) => Some(j@),
        None => None,
    }
}

/// Declares serde_json's value, through which text is parsed and written.
#[verifier::external_type_specification]
#[verifier::external_body]
pub struct ExSerdeValue(serde_json::Value);

/// The value `serde_json::from_str::<serde_json::Value>` reads from `text`,
/// none when `text` is not JSON.
pub uninterp spec fn json_of_text(text: Seq<char>) -> Option<JsonView>;

/// The text `serde_json::to_string` writes for the value.
pub uninterp spec fn json_text_of(v: JsonView) -> Seq<char>;

/// serde_json's value as the library's, variant for variant; part of
/// `parse_json`.
#[verifier::external_body]
fn from_serde(v: &Value) -> Json {
    match v {
        Value::Null => Json::Null,
        Value::Bool(b) => Json::Bool(*b),
        Value::Number(n) => Json::Number(
            n.as_u64().map(JsonNumber::PosInt).or(n.as_i64().map(JsonNumber::NegInt)).unwrap_or_else(
                || JsonNumber::Float(n.to_string()),
            ),
        ),
        Value::String(s) => Json::Str(s.clone()),
        Value::Array(a) => Json::Array(a.iter().map(from_serde).collect()),
        Value::Object(m) => Json::Object(m.iter().map(|(k, x)| (k.clone(), from_serde(x))).collect()),
    }
}

/// The library's value as serde_json's, variant for variant; part of
/// `json_text`.
#[verifier::external_body]
fn to_serde(j: &Json) -> Value {
    match j {
        Json::Null => Value::Null,
        Json::Bool(b) => Value::Bool(*b),
        Json::Number(JsonNumber::PosInt(u)) => Value::from(*u),
        Json::Number(JsonNumber::NegInt(i)) => Value::from(*i),
        Json::Number(JsonNumber::Float(f)) => {
            f.parse::<serde_json::Number>().map(Value::Number).unwrap_or(Value::Null)
        },
        Json::Str(s) => Value::String(s.clone()),
        Json::Array(a) => Value::Array(a.iter().map(to_serde).collect()),
        Json::Object(e) => Value::Object(e.iter().map(|(k, x)| (k.clone(), to_serde(x))).collect()),
    }
}

/// Parses `text` as JSON: `serde_json::from_str::<serde_json::Value>`,
/// converted. The value is a function of the text alone, named
/// `json_of_text`.
#[verifier::external_body]
pub(crate) fn parse_json(text: &str) -> (r: Option<Json>)
    ensures
        opt_json_view(r) == json_of_text(text@),
{
    match serde_json::from_str::<serde_json::Value>(text) {
        Ok(v) => Some(from_serde(&v)),
        Err(_) => None,
    }
}

/// Writes `v` as JSON text: `serde_json::to_string` of the converted value
/// (which cannot fail for a value). The text is a function of the value
/// alone, named `json_text_of`.
#[verifier::external_body]
pub(crate) fn json_text(v: &Json) -> (r: String)
    ensures
        r@ == json_text_of(v@),
{
    serde_json::to_string(&to_serde(v)).unwrap_or_default()
}

} // verus!

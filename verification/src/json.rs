//! JSON documents.
//!
//! Parsing and printing are `serde_json`'s; a document is held as a [`Json`]
//! tree, which the rest of the library reads and edits.
use vstd::prelude::*;

use crate::error::{outcome, Error, ErrorView};
use crate::table::{entry, find_entry, lemma_entry_in, ordered, put, put_law};

verus! {

/// A number of `serde_json`. Never looked into, only carried.
#[verifier::external_type_specification]
#[verifier::external_body]
pub struct ExNumber(serde_json::Number);

/// A number that is no 64-bit integer, as it was read: none is made otherwise.
pub struct OtherNumber {
    number: serde_json::Number,
}

/// A JSON document. The fields of an object stand in ascending order of their
/// names, each name once.
pub enum Json {
    Null,
    Bool(bool),
    UInt(u64),
    /// A negative integer.
    Int(i64),
    Number(OtherNumber),
    Text(String),
    Array(Vec<Json>),
    Object(Vec<(String, Json)>),
}

/// What a [`Json`] stands for.
pub enum JsonView {
    Null,
    Bool(bool),
    UInt(u64),
    Int(i64),
    Number(OtherNumber),
    Text(Seq<char>),
    Array(Seq<JsonView>),
    Object(Seq<(Seq<char>, JsonView)>),
}

pub open spec fn view_of(j: Json) -> JsonView
    decreases j,
{
    match j {
        Json::Null => JsonView::Null,
        Json::Bool(b) => JsonView::Bool(b),
        Json::UInt(n) => JsonView::UInt(n),
        Json::Int(n) => JsonView::Int(n),
        Json::Number(n) => JsonView::Number(n),
        Json::Text(s) => JsonView::Text(s@),
        Json::Array(v) => JsonView::Array(
            Seq::new(v@.len(), |i: int| if 0 <= i < v@.len() { view_of(v@[i]) } else { JsonView::Null }),
        ),
        Json::Object(v) => JsonView::Object(
            Seq::new(
                v@.len(),
                |i: int|
                    if 0 <= i < v@.len() {
                        (v@[i].0@, view_of(v@[i].1))
                    } else {
                        (Seq::empty(), JsonView::Null)
                    },
            ),
        ),
    }
}

impl View for Json {
    type V = JsonView;

    open spec fn view(&self) -> JsonView {
        view_of(*self)
    }
}

impl DeepView for Json {
    type V = JsonView;

    open spec fn deep_view(&self) -> JsonView {
        view_of(*self)
    }
}

/// The fields of an object, as a view.
pub type Fields = Seq<(Seq<char>, JsonView)>;

/// Every object in the document has its fields in order, and what stands as a
/// negative integer is one.
pub open spec fn well_formed(j: JsonView) -> bool
    decreases j,
{
    match j {
        JsonView::Int(n) => n < 0,
        JsonView::Array(v) => forall|i: int| 0 <= i < v.len() ==> well_formed(#[trigger] v[i]),
        JsonView::Object(f) => ordered(f) && forall|i: int|
            0 <= i < f.len() ==> well_formed((#[trigger] f[i]).1),
        _ => true,
    }
}

/// How deep a document may be nested to be read.
pub const MAX_NESTING: u64 = 127;

/// Nested at most `depth` deep.
pub open spec fn shallow(j: JsonView, depth: nat) -> bool
    decreases depth,
{
    match j {
        JsonView::Array(v) => depth > 0 && forall|i: int|
            0 <= i < v.len() ==> shallow(#[trigger] v[i], (depth - 1) as nat),
        JsonView::Object(f) => depth > 0 && forall|i: int|
            0 <= i < f.len() ==> shallow((#[trigger] f[i]).1, (depth - 1) as nat),
        _ => true,
    }
}

/// With no number but integers.
pub open spec fn whole(j: JsonView) -> bool
    decreases j,
{
    match j {
        JsonView::Number(_) => false,
        JsonView::Array(v) => forall|i: int| 0 <= i < v.len() ==> whole(#[trigger] v[i]),
        JsonView::Object(f) => forall|i: int| 0 <= i < f.len() ==> whole((#[trigger] f[i]).1),
        _ => true,
    }
}

/// The same document, but that numbers other than integers may differ.
pub open spec fn alike(a: JsonView, b: JsonView) -> bool
    decreases a,
{
    match (a, b) {
        (JsonView::Number(_), JsonView::Number(_)) => true,
        (JsonView::Array(v), JsonView::Array(w)) => v.len() == w.len() && forall|i: int|
            0 <= i < v.len() ==> alike(#[trigger] v[i], w[i]),
        (JsonView::Object(f), JsonView::Object(g)) => f.len() == g.len() && forall|i: int|
            0 <= i < f.len() ==> (#[trigger] f[i]).0 == g[i].0 && alike(f[i].1, g[i].1),
        _ => a == b,
    }
}

impl JsonView {
    /// The field `key`, where this is an object that has it.
    pub open spec fn get(self, key: Seq<char>) -> Option<JsonView> {
        match self {
            JsonView::Object(f) => entry(f, key),
            _ => None,
        }
    }

    /// The fields, none where this is no object.
    pub open spec fn fields(self) -> Fields {
        match self {
            JsonView::Object(f) => f,
            _ => Seq::empty(),
        }
    }

    /// The items, none where this is no array.
    pub open spec fn items(self) -> Seq<JsonView> {
        match self {
            JsonView::Array(v) => v,
            _ => Seq::empty(),
        }
    }

    /// The string, where this is one.
    pub open spec fn text(self) -> Option<Seq<char>> {
        match self {
            JsonView::Text(s) => Some(s),
            _ => None,
        }
    }
}

/// A document of `serde_json`.
#[verifier::external_type_specification]
#[verifier::external_body]
pub struct ExValue(serde_json::Value);

/// What a `serde_json` document holds.
pub uninterp spec fn contents(v: serde_json::Value) -> JsonView;

/// What `serde_json::from_str` makes of a text: the document, or the text of
/// its error.
pub uninterp spec fn parsed_json(text: Seq<char>) -> Result<JsonView, Seq<char>>;

/// The document that `serde_json::from_slice` reads from bytes, if it can.
pub uninterp spec fn parsed_json_bytes(bytes: Seq<u8>) -> Option<JsonView>;

/// What `serde_json::to_string_pretty` makes of a document: the indented text,
/// or the text of its error.
pub uninterp spec fn printed_json(j: JsonView) -> Result<Seq<char>, Seq<char>>;

/// Takes a `serde_json::Value` apart, part for part. Claims that the tree holds
/// what the value holds, and that objects come with their names in order, as
/// the sorted map behind `serde_json::Map` hands them out.
#[verifier::external_body]
fn json_of_value(v: serde_json::Value) -> (r: Json)
    ensures
        r@ == contents(v),
        well_formed(r@),
{
    match v {
        serde_json::Value::Null => Json::Null,
        serde_json::Value::Bool(b) => Json::Bool(b),
        serde_json::Value::Number(n) => match (n.as_u64(), n.as_i64()) {
            (Some(u), _) => Json::UInt(u),
            (None, Some(i)) => Json::Int(i),
            (None, None) => Json::Number(OtherNumber { number: n }),
        },
        serde_json::Value::String(s) => Json::Text(s),
        serde_json::Value::Array(a) => Json::Array(a.into_iter().map(json_of_value).collect()),
        serde_json::Value::Object(m) => Json::Object(
            m.into_iter().map(|(k, v)| (k, json_of_value(v))).collect()),
    }
}

/// Builds the `serde_json::Value` that holds what the tree holds. An ordered
/// object becomes a `serde_json::Map` with the same fields.
#[verifier::external_body]
fn value_of_json(j: Json) -> (r: serde_json::Value)
    requires
        well_formed(j@),
    ensures
        contents(r) == j@,
{
    match j {
        Json::Null => serde_json::Value::Null,
        Json::Bool(b) => serde_json::Value::Bool(b),
        Json::UInt(n) => serde_json::Value::from(n),
        Json::Int(n) => serde_json::Value::from(n),
        Json::Number(n) => serde_json::Value::Number(n.number),
        Json::Text(s) => serde_json::Value::String(s),
        Json::Array(a) => serde_json::Value::Array(a.into_iter().map(value_of_json).collect()),
        Json::Object(f) => serde_json::Value::Object(
            f.into_iter().map(|(k, v)| (k, value_of_json(v))).collect()),
    }
}

/// `serde_json::from_str` into a `serde_json::Value`, the error as its text. Claims
/// too that what it reads is not nested deeper than its limit.
#[verifier::external_body]
fn value_of_text(text: &str) -> (r: Result<serde_json::Value, String>)
    ensures
        match r {
            Ok(v) => parsed_json(text@) is Ok && parsed_json(text@)->Ok_0 == contents(v) && shallow(contents(v), 127),
            Err(e) => parsed_json(text@) is Err && parsed_json(text@)->Err_0 == e@,
        },
{
    serde_json::from_str::<serde_json::Value>(text).map_err(|e| e.to_string())
}

/// `serde_json::from_slice` into a `serde_json::Value`.
#[verifier::external_body]
fn value_of_bytes(bytes: &[u8]) -> (r: Option<serde_json::Value>)
    ensures
        match r {
            Some(v) => parsed_json_bytes(bytes@) == Some(contents(v)),
            None => parsed_json_bytes(bytes@) is None,
        },
{
    serde_json::from_slice::<serde_json::Value>(bytes).ok()
}

/// `serde_json::to_string_pretty`, the error as its text. Claims too that every
/// document is printed, and that one nested no deeper than the limit for reading
/// reads back as it was, also with a newline behind it, but for the numbers other
/// than integers: each is printed with a point or an exponent, and reads back as
/// such a number. That it is the same number is not claimed, as reading may miss
/// the nearest one.
#[verifier::external_body]
fn text_of_value(v: &serde_json::Value) -> (r: Result<String, String>)
    ensures
        match r {
            Ok(t) => printed_json(contents(*v)) is Ok && printed_json(contents(*v))->Ok_0 == t@,
            Err(e) => printed_json(contents(*v)) is Err && printed_json(contents(*v))->Err_0 == e@,
        },
        r is Ok,
        shallow(contents(*v), 127) && well_formed(contents(*v)) ==> parsed_json(r->Ok_0@) is Ok && alike(contents(*v), parsed_json(r->Ok_0@)->Ok_0),
        shallow(contents(*v), 127) && well_formed(contents(*v)) ==> parsed_json(r->Ok_0@.push('\n')) is Ok && alike(contents(*v), parsed_json(r->Ok_0@.push('\n'))->Ok_0),
{
    serde_json::to_string_pretty(v).map_err(|e| e.to_string())
}

/// The document that `text` spells, or what is wrong with it.
pub fn parse_json(text: &str) -> (r: Result<Json, String>)
    ensures
        match r {
            Ok(j) => parsed_json(text@) is Ok && parsed_json(text@)->Ok_0 == j@ && well_formed(j@)
                && shallow(j@, MAX_NESTING as nat),
            Err(e) => parsed_json(text@) is Err && parsed_json(text@)->Err_0 == e@,
        },
{
    match value_of_text(text) {
        Ok(v) => Ok(json_of_value(v)),
        Err(e) => Err(e),
    }
}

/// The document that `bytes` spell, if they spell one.
pub fn parse_json_bytes(bytes: &[u8]) -> (r: Option<Json>)
    ensures
        match r {
            Some(j) => parsed_json_bytes(bytes@) == Some(j@) && well_formed(j@),
            None => parsed_json_bytes(bytes@) is None,
        },
{
    match value_of_bytes(bytes) {
        Some(v) => Some(json_of_value(v)),
        None => None,
    }
}

/// The indented text of a document.
pub fn print_json(j: Json) -> (r: Result<String, String>)
    requires
        well_formed(j@),
    ensures
        match r {
            Ok(t) => printed_json(j@) is Ok && printed_json(j@)->Ok_0 == t@,
            Err(e) => printed_json(j@) is Err && printed_json(j@)->Err_0 == e@,
        },
        r is Ok,
        shallow(j@, MAX_NESTING as nat) ==> parsed_json(r->Ok_0@) is Ok && alike(
            j@,
            parsed_json(r->Ok_0@)->Ok_0,
        ),
        shallow(j@, MAX_NESTING as nat) ==> parsed_json(r->Ok_0@.push('\n')) is Ok && alike(
            j@,
            parsed_json(r->Ok_0@.push('\n'))->Ok_0,
        ),
{
    let v = value_of_json(j);
    text_of_value(&v)
}

// ---------------------------------------------------------------------------
// Reading a document
// ---------------------------------------------------------------------------

/// The view of an array, by the views of its items.
pub proof fn lemma_array_view(a: Vec<Json>)
    ensures
        Json::Array(a)@ == JsonView::Array(a.deep_view()),
{
    match Json::Array(a)@ {
        JsonView::Array(v) => assert(v =~= a.deep_view()),
        _ => {},
    }
}

/// The view of an object, by the views of its fields.
pub proof fn lemma_object_view(f: Vec<(String, Json)>)
    ensures
        Json::Object(f)@ == JsonView::Object(f.deep_view()),
{
    match Json::Object(f)@ {
        JsonView::Object(v) => assert(v =~= f.deep_view()),
        _ => {},
    }
}

/// The fields are in order and well formed.
pub open spec fn fields_wf(f: Fields) -> bool {
    ordered(f) && forall|i: int| 0 <= i < f.len() ==> well_formed((#[trigger] f[i]).1)
}

/// Fields stay well formed when one more is put in.
pub proof fn lemma_put_wf(f: Fields, key: Seq<char>, v: JsonView)
    requires
        fields_wf(f),
        well_formed(v),
    ensures
        fields_wf(put(f, key, v)),
{
    let p = put(f, key, v);
    put_law(f, key, v, key);
    assert forall|i: int| 0 <= i < p.len() implies well_formed((#[trigger] p[i]).1) by {
        if p[i] != (key, v) {
            let k = choose|k: int| 0 <= k < f.len() && f[k] == p[i];
            assert(well_formed(f[k].1));
        }
    }
}

/// With no number but integers, what is alike is the same.
pub proof fn lemma_alike_whole(a: JsonView, b: JsonView)
    requires
        whole(a),
        alike(a, b),
    ensures
        a == b,
    decreases a,
{
    match (a, b) {
        (JsonView::Array(v), JsonView::Array(w)) => {
            assert forall|i: int| 0 <= i < v.len() implies v[i] == w[i] by {
                lemma_alike_whole(v[i], w[i]);
            }
            assert(v =~= w);
        },
        (JsonView::Object(f), JsonView::Object(g)) => {
            assert forall|i: int| 0 <= i < f.len() implies f[i] == g[i] by {
                lemma_alike_whole(f[i].1, g[i].1);
            }
            assert(f =~= g);
        },
        _ => {},
    }
}

/// Fields that are alike have the same names, with values that are alike.
pub proof fn lemma_alike_entry(f: Fields, g: Fields, key: Seq<char>)
    requires
        alike(JsonView::Object(f), JsonView::Object(g)),
    ensures
        entry(f, key) is Some == entry(g, key) is Some,
        entry(f, key) is Some ==> alike(entry(f, key)->0, entry(g, key)->0),
    decreases f.len(),
{
    if f.len() > 0 {
        assert(f[0].0 == g[0].0 && alike(f[0].1, g[0].1));
        if f[0].0 != key {
            let (t, u) = (f.skip(1), g.skip(1));
            assert forall|i: int| 0 <= i < t.len() implies (#[trigger] t[i]).0 == u[i].0 && alike(
                t[i].1,
                u[i].1,
            ) by {
                assert(t[i] == f[i + 1] && u[i] == g[i + 1]);
            }
            lemma_alike_entry(t, u, key);
        }
    }
}

/// The fields are nested at most `depth` deep.
pub open spec fn fields_shallow(f: Fields, depth: nat) -> bool {
    forall|i: int| 0 <= i < f.len() ==> shallow((#[trigger] f[i]).1, depth)
}

/// The fields of an object are nested one less deep than it.
pub proof fn lemma_fields_shallow(f: Fields, depth: nat)
    requires
        shallow(JsonView::Object(f), depth + 1),
    ensures
        fields_shallow(f, depth),
{
    let j = JsonView::Object(f);
    let below = (depth + 1 - 1) as nat;
    assert(below == depth);
    assert forall|i: int| 0 <= i < f.len() implies shallow((#[trigger] f[i]).1, depth) by {
        assert(shallow(j->Object_0[i].1, below));
    }
}

/// Fields stay nested no deeper when one more is put in.
pub proof fn lemma_put_shallow(f: Fields, key: Seq<char>, v: JsonView, depth: nat)
    requires
        ordered(f),
        fields_shallow(f, depth),
        shallow(v, depth),
    ensures
        fields_shallow(put(f, key, v), depth),
{
    let p = put(f, key, v);
    put_law(f, key, v, key);
    assert forall|i: int| 0 <= i < p.len() implies shallow((#[trigger] p[i]).1, depth) by {
        if p[i] != (key, v) {
            let k = choose|k: int| 0 <= k < f.len() && f[k] == p[i];
            assert(shallow(f[k].1, depth));
        }
    }
}

/// A part of a well-formed document is well formed.
pub proof fn lemma_part_wf(j: JsonView, key: Seq<char>)
    requires
        well_formed(j),
    ensures
        fields_wf(j.fields()),
        j.get(key) is Some ==> well_formed(j.get(key)->0),
{
    if j.get(key) is Some {
        let f = j->Object_0;
        lemma_entry_in(f, key);
        let i = choose|i: int| 0 <= i < f.len() && #[trigger] f[i] == (key, entry(f, key)->0);
        assert(well_formed(f[i].1));
    }
}

impl Json {
    /// The field `key`, where this is an object that has it.
    pub fn get(&self, key: &str) -> (r: Option<&Json>)
        ensures
            match r {
                Some(j) => self@.get(key@) == Some(j@),
                None => self@.get(key@) is None,
            },
    {
        match self {
            Json::Object(f) => {
                proof {
                    lemma_object_view(*f);
                }
                match find_entry(f, key) {
                    Some(i) => Some(&f[i].1),
                    None => None,
                }
            },
            _ => None,
        }
    }

    /// The string, where this is one.
    pub fn text(&self) -> (r: Option<&String>)
        ensures
            match r {
                Some(s) => self@.text() == Some(s@),
                None => self@.text() is None,
            },
    {
        match self {
            Json::Text(s) => Some(s),
            _ => None,
        }
    }

    /// The items, where this is an array.
    pub fn items(&self) -> (r: Option<&Vec<Json>>)
        ensures
            match r {
                Some(v) => self@ == JsonView::Array(v.deep_view()),
                None => !(self@ is Array),
            },
    {
        match self {
            Json::Array(v) => {
                proof {
                    lemma_array_view(*v);
                }
                Some(v)
            },
            _ => None,
        }
    }

    /// The fields by key, none where this is no object.
    pub fn into_fields(self) -> (r: Vec<(String, Json)>)
        ensures
            r.deep_view() == self@.fields(),
    {
        match self {
            Json::Object(f) => {
                proof {
                    lemma_object_view(f);
                }
                f
            },
            _ => {
                let f: Vec<(String, Json)> = Vec::new();
                assert(f.deep_view() =~= Seq::<(Seq<char>, JsonView)>::empty());
                f
            },
        }
    }

    /// The value of the field `key`, where this is an object that has it.
    pub fn into_field(self, key: &str) -> (r: Option<Json>)
        ensures
            match r {
                Some(j) => self@.get(key@) == Some(j@),
                None => self@.get(key@) is None,
            },
    {
        match self {
            Json::Object(f) => {
                proof {
                    lemma_object_view(f);
                }
                let mut f = f;
                match find_entry(&f, key) {
                    Some(i) => {
                        let e = f.remove(i);
                        Some(e.1)
                    },
                    None => None,
                }
            },
            _ => None,
        }
    }
}

// ---------------------------------------------------------------------------
// Files that hold a document
// ---------------------------------------------------------------------------

/// What a text says, or the error that it is no JSON.
pub open spec fn document_of(text: Seq<char>) -> Result<JsonView, ErrorView> {
    match parsed_json(text) {
        Ok(j) => Ok(j),
        Err(e) => Err(ErrorView::Config(e)),
    }
}

/// The text of a file that holds a document.
pub open spec fn file_of(j: JsonView) -> Result<Seq<char>, ErrorView> {
    match printed_json(j) {
        Ok(t) => Ok(t.push('\n')),
        Err(e) => Err(ErrorView::Config(e)),
    }
}

/// What a text says, or the error that it is no JSON.
pub fn read_document(text: &str) -> (r: Result<Json, Error>)
    ensures
        outcome(r) == document_of(text@),
        r is Ok ==> well_formed(r->Ok_0@) && shallow(r->Ok_0@, MAX_NESTING as nat),
{
    match parse_json(text) {
        Ok(j) => Ok(j),
        Err(e) => Err(Error::Config(e)),
    }
}

/// The text of a file that holds `j`.
pub fn write_document(j: Json) -> (r: Result<String, Error>)
    requires
        well_formed(j@),
    ensures
        outcome(r) == file_of(j@),
        r is Ok,
        shallow(j@, MAX_NESTING as nat) ==> document_of(r->Ok_0@) is Ok && alike(
            j@,
            document_of(r->Ok_0@)->Ok_0,
        ),
{
    match print_json(j) {
        Ok(t) => {
            let ghost g = t@;
            let mut t = t;
            t.push('\n');
            assert(t@ =~= g.push('\n'));
            Ok(t)
        },
        Err(e) => Err(Error::Config(e)),
    }
}

} // verus!

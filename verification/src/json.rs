//! JSON documents as plain values, read with serde_json.
use crate::text::{
    concat, is_one_line, join, joined, lemma_one_line_join, lemma_one_line_sum, opt_slice, same,
    texts,
};
use vstd::prelude::*;
use vstd::string::*;

verus! {

/// A JSON document.
#[derive(Debug)]
pub enum Json {
    Null,
    Bool(bool),
    Number(JsonNumber),
    Text(String),
    List(Vec<Json>),
    /// The members of an object, in order.
    Fields(Vec<(String, Json)>),
}

/// A JSON number: how it is written, and its value where that is an integer
/// that fits 64 unsigned bits.
#[derive(Debug)]
pub struct JsonNumber {
    pub text: String,
    pub unsigned: Option<u64>,
}

/// A JSON document, with its strings as characters.
#[verifier::ext_equal]
pub ghost enum JsonView {
    Null,
    Bool(bool),
    Number { text: Seq<char>, unsigned: Option<u64> },
    Text(Seq<char>),
    List(Seq<JsonView>),
    Fields(Seq<(Seq<char>, JsonView)>),
}

/// The document with its strings as characters, item by item.
pub open spec fn tree(doc: Json) -> JsonView
    decreases doc,
{
    match doc {
        Json::Null => JsonView::Null,
        Json::Bool(b) => JsonView::Bool(b),
        Json::Number(n) => JsonView::Number { text: n.text@, unsigned: n.unsigned },
        Json::Text(s) => JsonView::Text(s@),
        Json::List(items) => JsonView::List(
            Seq::new(
                items@.len(),
                |i: int|
                    if 0 <= i < items@.len() {
                        tree(items@[i])
                    } else {
                        JsonView::Null
                    },
            ),
        ),
        Json::Fields(fields) => JsonView::Fields(
            Seq::new(
                fields@.len(),
                |i: int|
                    if 0 <= i < fields@.len() {
                        (fields@[i].0@, tree(fields@[i].1))
                    } else {
                        (Seq::empty(), JsonView::Null)
                    },
            ),
        ),
    }
}

impl View for Json {
    type V = JsonView;

    open spec fn view(&self) -> JsonView {
        tree(*self)
    }
}

/// The view of a list is made of the views of its items.
pub proof fn lemma_list_view(items: Vec<Json>)
    ensures
        Json::List(items)@ == JsonView::List(items@.map_values(|j: Json| j@)),
{
    let view = Json::List(items)@;
    assert(view->List_0 =~= items@.map_values(|j: Json| j@));
}

/// The view of an object is made of the names and the views of its members.
pub proof fn lemma_fields_view(fields: Vec<(String, Json)>)
    ensures
        Json::Fields(fields)@ == JsonView::Fields(
            fields@.map_values(|f: (String, Json)| (f.0@, f.1@)),
        ),
{
    let view = Json::Fields(fields)@;
    assert(view->Fields_0 =~= fields@.map_values(|f: (String, Json)| (f.0@, f.1@)));
}

/// A document as serde_json holds it.
#[verifier::external_type_specification]
#[verifier::external_body]
pub struct ExValue(serde_json::Value);

/// The document that a `serde_json::Value` holds.
pub uninterp spec fn value_tree(value: serde_json::Value) -> JsonView;

/// The document that serde_json reads from a text, or why it reads none.
pub uninterp spec fn json_of(text: Seq<char>) -> Result<JsonView, Seq<char>>;

/// `serde_json::from_str` into a `serde_json::Value`; an error is kept by its
/// message. The contract claims that the document read, whether there is one, and
/// the message where there is none, depend on the text alone.
#[verifier::external_body]
fn parse_value(text: &str) -> (r: Result<serde_json::Value, String>)
    ensures
        match r {
            Ok(v) => json_of(text@) == Ok::<JsonView, Seq<char>>(value_tree(v)),
            Err(e) => json_of(text@) == Err::<JsonView, Seq<char>>(e@),
        },
{
    serde_json::from_str(text).map_err(|e| e.to_string())
}

/// Why a text is no JSON, where it is none.
pub open spec fn json_fault(text: Seq<char>) -> Option<Seq<char>> {
    match json_of(text) {
        Ok(_) => None,
        Err(e) => Some(e),
    }
}

/// The outermost layer of a `serde_json::Value`.
enum Opened<'a> {
    Null,
    Bool(bool),
    Number(JsonNumber),
    Text(String),
    List(Vec<&'a serde_json::Value>),
    Fields(Vec<(String, &'a serde_json::Value)>),
}

impl<'a> Opened<'a> {
    spec fn tree(self) -> JsonView {
        match self {
            Opened::Null => JsonView::Null,
            Opened::Bool(b) => JsonView::Bool(b),
            Opened::Number(n) => JsonView::Number { text: n.text@, unsigned: n.unsigned },
            Opened::Text(s) => JsonView::Text(s@),
            Opened::List(v) => JsonView::List(
                v@.map_values(|x: &serde_json::Value| value_tree(*x)),
            ),
            Opened::Fields(v) => JsonView::Fields(
                v@.map_values(|x: (String, &serde_json::Value)| (x.0@, value_tree(*x.1))),
            ),
        }
    }
}

/// The variants of `serde_json::Value`, told apart. The contract claims that
/// they make up the document: a number is kept by its text and by
/// `Number::as_u64`, an array by its items, an object by its members in the
/// order in which the map gives them.
#[verifier::external_body]
fn open_value<'a>(value: &'a serde_json::Value) -> (r: Opened<'a>)
    ensures
        value_tree(*value) == r.tree(),
{
    match value {
        serde_json::Value::Null => Opened::Null,
        serde_json::Value::Bool(b) => Opened::Bool(*b),
        serde_json::Value::Number(n) => Opened::Number(
            JsonNumber { text: n.to_string(), unsigned: n.as_u64() },
        ),
        serde_json::Value::String(s) => Opened::Text(s.clone()),
        serde_json::Value::Array(v) => Opened::List(v.iter().collect()),
        serde_json::Value::Object(m) => Opened::Fields(
            m.iter().map(|(k, v)| (k.clone(), v)).collect(),
        ),
    }
}

/// Copies a `serde_json::Value` into plain values.
fn copy_value(value: &serde_json::Value) -> (r: Json)
    ensures
        r@ == value_tree(*value),
    decreases value_tree(*value),
{
    match open_value(value) {
        Opened::Null => Json::Null,
        Opened::Bool(b) => Json::Bool(b),
        Opened::Number(n) => Json::Number(n),
        Opened::Text(s) => Json::Text(s),
        Opened::List(v) => {
            let ghost trees = v@.map_values(|x: &serde_json::Value| value_tree(*x));
            let mut out: Vec<Json> = Vec::new();
            let mut i: usize = 0;
            while i < v.len()
                invariant
                    i <= v.len(),
                    out.len() == i,
                    trees == v@.map_values(|x: &serde_json::Value| value_tree(*x)),
                    value_tree(*value) == JsonView::List(trees),
                    forall|j: int| 0 <= j < i ==> (#[trigger] out@[j])@ == trees[j],
                decreases v.len() - i,
            {
                assert(value_tree(*v@[i as int]) == trees[i as int]);
                assert(decreases_to!(value_tree(*value) => value_tree(*value)->List_0));
                assert(decreases_to!(trees => trees[i as int]));
                out.push(copy_value(v[i]));
                i += 1;
            }
            let r = Json::List(out);
            assert(r@->List_0 =~= trees);
            r
        },
        Opened::Fields(v) => {
            let ghost trees = v@.map_values(
                |x: (String, &serde_json::Value)| (x.0@, value_tree(*x.1)),
            );
            let mut out: Vec<(String, Json)> = Vec::new();
            let mut i: usize = 0;
            while i < v.len()
                invariant
                    i <= v.len(),
                    out.len() == i,
                    trees == v@.map_values(
                        |x: (String, &serde_json::Value)| (x.0@, value_tree(*x.1)),
                    ),
                    value_tree(*value) == JsonView::Fields(trees),
                    forall|j: int|
                        0 <= j < i ==> (#[trigger] out@[j]).0@ == trees[j].0 && out@[j].1@
                            == trees[j].1,
                decreases v.len() - i,
            {
                assert((v@[i as int].0@, value_tree(*v@[i as int].1)) == trees[i as int]);
                assert(decreases_to!(value_tree(*value) => value_tree(*value)->Fields_0));
                assert(decreases_to!(trees => trees[i as int]));
                assert(decreases_to!(trees[i as int] => trees[i as int].1));
                let child = copy_value(v[i].1);
                out.push((v[i].0.clone(), child));
                i += 1;
            }
            let r = Json::Fields(out);
            assert(r@->Fields_0 =~= trees);
            r
        },
    }
}

/// Reads a JSON document.
pub fn read_json(text: &str) -> (r: Result<Json, String>)
    ensures
        match r {
            Ok(j) => json_of(text@) == Ok::<JsonView, Seq<char>>(j@),
            Err(e) => json_of(text@) == Err::<JsonView, Seq<char>>(e@),
        },
{
    match parse_value(text) {
        Ok(v) => Ok(copy_value(&v)),
        Err(e) => Err(e),
    }
}

// ---- copying ----------------------------------------------------------------

impl Json {
    /// A copy of the document.
    pub fn copy(&self) -> (r: Json)
        ensures
            r@ == self@,
        decreases self@,
    {
        match self {
            Json::Null => Json::Null,
            Json::Bool(b) => Json::Bool(*b),
            Json::Number(n) => Json::Number(
                JsonNumber { text: n.text.clone(), unsigned: n.unsigned },
            ),
            Json::Text(s) => Json::Text(s.clone()),
            Json::List(items) => {
                let ghost views = items@.map_values(|j: Json| j@);
                proof {
                    lemma_list_view(*items);
                }
                let mut out: Vec<Json> = Vec::new();
                let mut i: usize = 0;
                while i < items.len()
                    invariant
                        i <= items.len(),
                        self@ == JsonView::List(views),
                        views == items@.map_values(|j: Json| j@),
                        out.len() == i,
                        forall|k: int| 0 <= k < i ==> (#[trigger] out@[k])@ == views[k],
                    decreases items.len() - i,
                {
                    assert(views[i as int] == items@[i as int]@);
                    assert(decreases_to!(self@ => self@->List_0));
                    assert(decreases_to!(views => views[i as int]));
                    out.push(items[i].copy());
                    i += 1;
                }
                proof {
                    lemma_list_view(out);
                    assert(out@.map_values(|j: Json| j@) =~= views);
                }
                Json::List(out)
            },
            Json::Fields(fields) => {
                let ghost views = fields@.map_values(|f: (String, Json)| (f.0@, f.1@));
                proof {
                    lemma_fields_view(*fields);
                }
                let mut out: Vec<(String, Json)> = Vec::new();
                let mut i: usize = 0;
                while i < fields.len()
                    invariant
                        i <= fields.len(),
                        self@ == JsonView::Fields(views),
                        views == fields@.map_values(|f: (String, Json)| (f.0@, f.1@)),
                        out.len() == i,
                        forall|k: int|
                            0 <= k < i ==> (#[trigger] out@[k]).0@ == views[k].0 && out@[k].1@
                                == views[k].1,
                    decreases fields.len() - i,
                {
                    assert(views[i as int] == (fields@[i as int].0@, fields@[i as int].1@));
                    assert(decreases_to!(self@ => self@->Fields_0));
                    assert(decreases_to!(views => views[i as int]));
                    assert(decreases_to!(views[i as int] => views[i as int].1));
                    let value = fields[i].1.copy();
                    out.push((fields[i].0.clone(), value));
                    i += 1;
                }
                proof {
                    lemma_fields_view(out);
                    assert(out@.map_values(|f: (String, Json)| (f.0@, f.1@)) =~= views);
                }
                Json::Fields(out)
            },
        }
    }
}

// ---- writing ----------------------------------------------------------------

pub open spec fn hex_digit(d: int) -> char {
    if d == 1 {
        '1'
    } else if d == 2 {
        '2'
    } else if d == 3 {
        '3'
    } else if d == 4 {
        '4'
    } else if d == 5 {
        '5'
    } else if d == 6 {
        '6'
    } else if d == 7 {
        '7'
    } else if d == 8 {
        '8'
    } else if d == 9 {
        '9'
    } else if d == 10 {
        'a'
    } else if d == 11 {
        'b'
    } else if d == 12 {
        'c'
    } else if d == 13 {
        'd'
    } else if d == 14 {
        'e'
    } else if d == 15 {
        'f'
    } else {
        '0'
    }
}

/// A character inside a JSON string.
pub open spec fn escaped(c: char) -> Seq<char> {
    if c == '"' {
        seq!['\\', '"']
    } else if c == '\\' {
        seq!['\\', '\\']
    } else if c == '\u{8}' {
        seq!['\\', 'b']
    } else if c == '\t' {
        seq!['\\', 't']
    } else if c == '\n' {
        seq!['\\', 'n']
    } else if c == '\u{c}' {
        seq!['\\', 'f']
    } else if c == '\r' {
        seq!['\\', 'r']
    } else if ' ' > c {
        seq!['\\', 'u', '0', '0', hex_digit(c as int / 16), hex_digit(c as int % 16)]
    } else {
        seq![c]
    }
}

/// A text as a JSON string.
pub open spec fn json_string(text: Seq<char>) -> Seq<char> {
    seq!['"'] + concat(text.map_values(|c: char| escaped(c))) + seq!['"']
}

/// `serde_json::to_string` on a string slice. The contract claims that it puts
/// the text in quotes and escapes quotes, backslashes and the control
/// characters below the space, and nothing else.
#[verifier::external_body]
pub(crate) fn write_string(text: &str) -> (r: String)
    ensures
        r@ == json_string(text@),
{
    serde_json::to_string(text).unwrap()
}

/// A text, or `null`.
pub open spec fn json_optional(text: Option<Seq<char>>) -> Seq<char> {
    match text {
        Some(t) => json_string(t),
        None => "null"@,
    }
}

pub fn write_optional(text: Option<&str>) -> (r: String)
    ensures
        r@ == json_optional(opt_slice(text)),
{
    match text {
        Some(t) => write_string(t),
        None => "null".to_owned(),
    }
}

pub open spec fn json_bool(b: bool) -> Seq<char> {
    if b {
        "true"@
    } else {
        "false"@
    }
}

/// `"KEY":VALUE`, with a value that is JSON already.
pub open spec fn json_field(key: Seq<char>, value: Seq<char>) -> Seq<char> {
    "\""@ + key + "\":"@ + value
}

pub fn write_field(key: &str, value: &str) -> (r: String)
    ensures
        r@ == json_field(key@, value@),
{
    let mut out = "\"".to_owned();
    out.append(key);
    out.append("\":");
    out.append(value);
    out
}

/// An object of such fields, on one line.
pub open spec fn json_object(fields: Seq<Seq<char>>) -> Seq<char> {
    "{"@ + join(fields, ","@) + "}"@
}

pub fn write_object(fields: &Vec<String>) -> (r: String)
    ensures
        r@ == json_object(texts(fields@)),
{
    let mut out = "{".to_owned();
    out.append(joined(fields, ",").as_str());
    out.append("}");
    out
}

/// A JSON string stays on one line.
pub proof fn law_json_string_is_one_line(text: Seq<char>)
    ensures
        is_one_line(json_string(text)),
{
    let pieces = text.map_values(|c: char| escaped(c));
    assert forall|k: int| 0 <= k < pieces.len() implies is_one_line(#[trigger] pieces[k]) by {
        assert(pieces[k] == escaped(text[k]));
    }
    lemma_one_line_concat(pieces);
    lemma_one_line_sum(seq!['"'], concat(pieces));
    lemma_one_line_sum(seq!['"'] + concat(pieces), seq!['"']);
}

proof fn lemma_one_line_concat(pieces: Seq<Seq<char>>)
    requires
        forall|k: int| 0 <= k < pieces.len() ==> is_one_line(#[trigger] pieces[k]),
    ensures
        is_one_line(concat(pieces)),
    decreases pieces.len(),
{
    if pieces.len() > 0 {
        let past = pieces.drop_last();
        assert forall|k: int| 0 <= k < past.len() implies is_one_line(#[trigger] past[k]) by {
            assert(past[k] == pieces[k]);
        }
        lemma_one_line_concat(past);
        lemma_one_line_sum(concat(past), pieces[pieces.len() - 1]);
    }
}

pub proof fn lemma_one_line_optional(text: Option<Seq<char>>)
    ensures
        is_one_line(json_optional(text)),
{
    match text {
        Some(t) => law_json_string_is_one_line(t),
        None => {
            reveal_strlit("null");
        },
    }
}

pub proof fn lemma_one_line_field(key: Seq<char>, value: Seq<char>)
    requires
        is_one_line(key),
        is_one_line(value),
    ensures
        is_one_line(json_field(key, value)),
{
    reveal_strlit("\"");
    reveal_strlit("\":");
    lemma_one_line_sum("\""@, key);
    lemma_one_line_sum("\""@ + key, "\":"@);
    lemma_one_line_sum("\""@ + key + "\":"@, value);
}

/// An object of fields that are on one line is on one line.
pub proof fn law_json_object_is_one_line(fields: Seq<Seq<char>>)
    requires
        forall|k: int| 0 <= k < fields.len() ==> is_one_line(#[trigger] fields[k]),
    ensures
        is_one_line(json_object(fields)),
{
    reveal_strlit("{");
    reveal_strlit(",");
    reveal_strlit("}");
    lemma_one_line_join(fields, ","@);
    lemma_one_line_sum("{"@, join(fields, ","@));
    lemma_one_line_sum("{"@ + join(fields, ","@), "}"@);
}

// ---- looking into a document ------------------------------------------------

/// The value of the first member called `name`.
pub open spec fn first_member(
    fields: Seq<(Seq<char>, JsonView)>,
    name: Seq<char>,
) -> Option<JsonView>
    decreases fields.len(),
{
    if fields.len() == 0 {
        None
    } else if fields[0].0 == name {
        Some(fields[0].1)
    } else {
        first_member(fields.drop_first(), name)
    }
}

/// The value of a member of an object.
pub open spec fn member(doc: JsonView, name: Seq<char>) -> Option<JsonView> {
    match doc {
        JsonView::Fields(fields) => first_member(fields, name),
        _ => None,
    }
}

/// A document that can be read as a record of `n` fields: an object, or a list
/// of at most `n` values in the order of the fields.
pub open spec fn is_record(doc: JsonView, n: nat) -> bool {
    match doc {
        JsonView::Fields(_) => true,
        JsonView::List(items) => items.len() <= n,
        _ => false,
    }
}

/// The field `name` of a record, which stands at `position` in a list.
pub open spec fn slot(doc: JsonView, name: Seq<char>, position: int) -> Option<JsonView> {
    match doc {
        JsonView::Fields(fields) => first_member(fields, name),
        JsonView::List(items) => if 0 <= position < items.len() {
            Some(items[position])
        } else {
            None
        },
        _ => None,
    }
}

/// The texts of a list of texts.
pub open spec fn text_list(doc: JsonView) -> Option<Seq<Seq<char>>> {
    match doc {
        JsonView::List(items) => if forall|i: int|
            0 <= i < items.len() ==> (#[trigger] items[i]) is Text {
            Some(items.map_values(|j: JsonView| j->Text_0))
        } else {
            None
        },
        _ => None,
    }
}

/// The texts in the only field of a record; none where the field is missing.
pub open spec fn record_texts(doc: JsonView, name: Seq<char>) -> Option<Seq<Seq<char>>> {
    if is_record(doc, 1) {
        match slot(doc, name, 0) {
            Some(value) => text_list(value),
            None => Some(Seq::empty()),
        }
    } else {
        None
    }
}

pub open spec fn opt_json(o: Option<&Json>) -> Option<JsonView> {
    match o {
        Some(j) => Some(j@),
        None => None,
    }
}

pub open spec fn opt_texts(o: Option<Vec<String>>) -> Option<Seq<Seq<char>>> {
    match o {
        Some(v) => Some(v@.map_values(|s: String| s@)),
        None => None,
    }
}

impl Json {
    /// The value of a member of an object.
    pub fn get(&self, name: &str) -> (r: Option<&Json>)
        ensures
            opt_json(r) == member(self@, name@),
    {
        match self {
            Json::Fields(fields) => {
                let mut i: usize = 0;
                let ghost view = fields@.map_values(|f: (String, Json)| (f.0@, f.1@));
                proof {
                    lemma_fields_view(*fields);
                    assert(view.skip(0) =~= view);
                }
                while i < fields.len()
                    invariant
                        i <= fields.len(),
                        view == fields@.map_values(|f: (String, Json)| (f.0@, f.1@)),
                        self@ == JsonView::Fields(view),
                        first_member(view, name@) == first_member(view.skip(i as int), name@),
                    decreases fields.len() - i,
                {
                    proof {
                        assert(view.skip(i as int)[0] == (
                            fields@[i as int].0@,
                            fields@[i as int].1@,
                        ));
                        assert(view.skip(i as int).drop_first() =~= view.skip(i + 1));
                    }
                    if same(fields[i].0.as_str(), name) {
                        return Some(&fields[i].1);
                    }
                    i += 1;
                }
                None
            },
            _ => None,
        }
    }

    /// Whether the document can be read as a record of `n` fields.
    pub fn record(&self, n: usize) -> (r: bool)
        ensures
            r == is_record(self@, n as nat),
    {
        match self {
            Json::Fields(_) => true,
            Json::List(items) => {
                proof {
                    lemma_list_view(*items);
                }
                items.len() <= n
            },
            _ => false,
        }
    }

    /// A field of a record.
    pub fn field(&self, name: &str, position: usize) -> (r: Option<&Json>)
        ensures
            opt_json(r) == slot(self@, name@, position as int),
    {
        match self {
            Json::List(items) => {
                proof {
                    lemma_list_view(*items);
                }
                if position < items.len() {
                    Some(&items[position])
                } else {
                    None
                }
            },
            _ => self.get(name),
        }
    }

    /// The texts of a list of texts.
    pub fn texts(&self) -> (r: Option<Vec<String>>)
        ensures
            opt_texts(r) == text_list(self@),
    {
        match self {
            Json::List(items) => {
                let mut out: Vec<String> = Vec::new();
                let mut i: usize = 0;
                let ghost view = items@.map_values(|j: Json| j@);
                proof {
                    lemma_list_view(*items);
                }
                while i < items.len()
                    invariant
                        i <= items.len(),
                        view == items@.map_values(|j: Json| j@),
                        self@ == JsonView::List(view),
                        out.len() == i,
                        forall|j: int|
                            0 <= j < i ==> (#[trigger] view[j]) == JsonView::Text(out@[j]@),
                    decreases items.len() - i,
                {
                    assert(view[i as int] == items@[i as int]@);
                    match &items[i] {
                        Json::Text(s) => out.push(s.clone()),
                        _ => {
                            return None;
                        },
                    }
                    i += 1;
                }
                proof {
                    assert(out@.map_values(|s: String| s@) =~= view.map_values(
                        |j: JsonView| j->Text_0,
                    ));
                }
                Some(out)
            },
            _ => None,
        }
    }

    /// The texts in the only field of a record.
    pub fn texts_in(&self, name: &str) -> (r: Option<Vec<String>>)
        ensures
            opt_texts(r) == record_texts(self@, name@),
    {
        if !self.record(1) {
            return None;
        }
        match self.field(name, 0) {
            Some(value) => value.texts(),
            None => {
                let out: Vec<String> = Vec::new();
                assert(out@.map_values(|s: String| s@) =~= Seq::empty());
                Some(out)
            },
        }
    }
}

/// The document is an object in which `name` stands for `value`: the first member of
/// that name has it.
pub open spec fn has_member(doc: JsonView, name: Seq<char>, value: JsonView) -> bool {
    doc matches JsonView::Fields(fields) && exists|k: int| #[trigger] first_at(fields, name, value, k)
}

/// The first member called `name` is the one at `k`, and it has the value.
pub open spec fn first_at(
    fields: Seq<(Seq<char>, JsonView)>,
    name: Seq<char>,
    value: JsonView,
    k: int,
) -> bool {
    &&& 0 <= k < fields.len()
    &&& fields[k] == (name, value)
    &&& forall|j: int| 0 <= j < k ==> (#[trigger] fields[j]).0 != name
}

proof fn lemma_first_member(fields: Seq<(Seq<char>, JsonView)>, name: Seq<char>)
    ensures
        match first_member(fields, name) {
            Some(value) => exists|k: int| #[trigger] first_at(fields, name, value, k),
            None => forall|k: int| 0 <= k < fields.len() ==> (#[trigger] fields[k]).0 != name,
        },
    decreases fields.len(),
{
    if fields.len() > 0 {
        let rest = fields.drop_first();
        if fields[0].0 == name {
            assert(first_at(fields, name, fields[0].1, 0));
        } else {
            lemma_first_member(rest, name);
            match first_member(rest, name) {
                Some(value) => {
                    let k = choose|k: int| #[trigger] first_at(rest, name, value, k);
                    assert forall|j: int| 0 <= j < k + 1 implies (#[trigger] fields[j]).0 != name by {
                        if j > 0 {
                            assert(rest[j - 1] == fields[j]);
                        }
                    }
                    assert(first_at(fields, name, value, k + 1));
                },
                None => {
                    assert forall|k: int| 0 <= k < fields.len() implies (#[trigger] fields[k]).0
                        != name by {
                        if k > 0 {
                            assert(rest[k - 1] == fields[k]);
                        }
                    }
                },
            }
        }
    }
}

/// A member is found by its name, wherever it stands in the object, and a record that is
/// written as a list has its fields by their position.
pub proof fn law_members_by_name(doc: JsonView, name: Seq<char>, value: JsonView)
    ensures
        member(doc, name) == Some(value) <==> has_member(doc, name, value),
        doc is Fields ==> slot(doc, name, 0) == member(doc, name) && slot(doc, name, 1) == member(
            doc,
            name,
        ) && slot(doc, name, 2) == member(doc, name),
        doc matches JsonView::List(items) ==> forall|p: int|
            0 <= p < items.len() ==> #[trigger] slot(doc, name, p) == Some(items[p]),
{
    if let JsonView::Fields(fields) = doc {
        lemma_first_member(fields, name);
        if has_member(doc, name, value) {
            let k = choose|k: int| #[trigger] first_at(fields, name, value, k);
            match first_member(fields, name) {
                Some(v) => {
                    let j = choose|j: int| #[trigger] first_at(fields, name, v, j);
                    assert(fields[j].0 == name && fields[k].0 == name);
                    assert(j == k);
                },
                None => {
                    assert(fields[k].0 == name);
                },
            }
        }
    }
}

/// The texts of a record are those that its field lists, in their order; a record without
/// the field has none, and one whose field is no list of texts is not read.
pub proof fn law_record_texts(
    doc: JsonView,
    name: Seq<char>,
    items: Seq<JsonView>,
    words: Seq<Seq<char>>,
)
    requires
        has_member(doc, name, JsonView::List(items)),
    ensures
        words.len() == items.len() && (forall|i: int|
            0 <= i < items.len() ==> #[trigger] items[i] == JsonView::Text(words[i]))
            ==> record_texts(doc, name) == Some(words),
        (exists|i: int| 0 <= i < items.len() && !((#[trigger] items[i]) is Text)) ==> record_texts(
            doc,
            name,
        ) is None,
{
    law_members_by_name(doc, name, JsonView::List(items));
    if words.len() == items.len() && forall|i: int|
        0 <= i < items.len() ==> #[trigger] items[i] == JsonView::Text(words[i]) {
        assert(items.map_values(|j: JsonView| j->Text_0) =~= words);
    }
}

} // verus!

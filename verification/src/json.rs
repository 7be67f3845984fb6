//! JSON documents as plain values: reading them, looking into them, and writing
//! them.

use crate::number::Number;
use crate::text::{join, joined, same, texts};
use vstd::prelude::*;
use vstd::string::*;

verus! {

/// A JSON document.
#[derive(Debug, PartialEq, Eq)]
pub enum Json {
    /// `null`.
    Null,
    /// `true` or `false`.
    Bool(bool),
    /// A number: its value as a binary64, and as an unsigned integer where it is one.
    Number {
        /// Its value.
        value: Number,
        /// The text the document holds for it: that of an integer, where it is one.
        source: String,
        /// Its value as an unsigned 64-bit integer, where it is one.
        whole: Option<u64>,
    },
    /// A string.
    Text(String),
    /// An array.
    List(Vec<Json>),
    /// An object: its members, in their order.
    Object(Vec<Member>),
    /// A document that is already written.
    Written(String),
}

/// One member of an object.
#[derive(Debug, PartialEq, Eq)]
pub struct Member {
    /// Its name.
    pub name: String,
    /// Its value.
    pub value: Json,
}

/// What a [`Json`] says.
pub enum JsonView {
    Null,
    Bool(bool),
    Number {
        bits: u64,
        text: Seq<char>,
        json: Seq<char>,
        source: Seq<char>,
        whole: Option<u64>,
    },
    Text(Seq<char>),
    List(Seq<JsonView>),
    Object(Seq<MemberView>),
    Written(Seq<char>),
}

/// What a [`Member`] says.
pub struct MemberView {
    pub name: Seq<char>,
    pub value: JsonView,
}

impl Json {
    /// What this document says.
    pub open spec fn model(self) -> JsonView
        decreases self,
    {
        match self {
            Json::Null => JsonView::Null,
            Json::Bool(b) => JsonView::Bool(b),
            Json::Number { value, source, whole } => JsonView::Number {
                bits: value.bits,
                text: value.text@,
                json: value.json@,
                source: source@,
                whole,
            },
            Json::Text(s) => JsonView::Text(s@),
            Json::List(items) => JsonView::List(
                Seq::new(
                    items@.len(),
                    |i: int|
                        if 0 <= i < items@.len() {
                            items@[i].model()
                        } else {
                            arbitrary()
                        },
                ),
            ),
            Json::Object(members) => JsonView::Object(
                Seq::new(
                    members@.len(),
                    |i: int|
                        if 0 <= i < members@.len() {
                            MemberView {
                                name: members@[i].name@,
                                value: members@[i].value.model(),
                            }
                        } else {
                            arbitrary()
                        },
                ),
            ),
            Json::Written(s) => JsonView::Written(s@),
        }
    }
}

impl View for Json {
    type V = JsonView;

    open spec fn view(&self) -> JsonView {
        self.model()
    }
}

// --- Reading ----------------------------------------------------------------
/// What reading a text as JSON gives: the document, or the reader's words on why
/// there is none.
pub uninterp spec fn json_outcome(text: Seq<char>) -> Result<JsonView, Seq<char>>;

/// A parsed document of `serde_json`, carried and opened one layer at a time.
#[verifier::external_type_specification]
#[verifier::external_body]
pub struct ExValue(serde_json::Value);

/// What a parsed document of `serde_json` holds.
pub uninterp spec fn value_model(value: serde_json::Value) -> JsonView;

/// The outermost layer of a parsed document.
enum Layer {
    Null,
    Bool(bool),
    Number { value: Number, source: String, whole: Option<u64> },
    Text(String),
    List(Vec<serde_json::Value>),
    Object(Vec<(String, serde_json::Value)>),
}

/// What the documents below a layer hold.
spec fn values_model(values: Seq<serde_json::Value>) -> Seq<JsonView> {
    Seq::new(values.len(), |i: int| value_model(values[i]))
}

/// What the members below a layer hold.
spec fn members_model(members: Seq<(String, serde_json::Value)>) -> Seq<MemberView> {
    Seq::new(
        members.len(),
        |i: int| MemberView { name: members[i].0@, value: value_model(members[i].1) },
    )
}

impl Layer {
    /// What a document with this layer outermost holds.
    spec fn model(self) -> JsonView {
        match self {
            Layer::Null => JsonView::Null,
            Layer::Bool(b) => JsonView::Bool(b),
            Layer::Number { value, source, whole } => JsonView::Number {
                bits: value.bits,
                text: value.text@,
                json: value.json@,
                source: source@,
                whole,
            },
            Layer::Text(s) => JsonView::Text(s@),
            Layer::List(items) => JsonView::List(values_model(items@)),
            Layer::Object(members) => JsonView::Object(members_model(members@)),
        }
    }
}

/// `serde_json::from_str` on a document of any shape. What it gives is a function
/// of the text alone, named `json_outcome`: the document, or the words of its error.
#[verifier::external_body]
pub(crate) fn parse_value(text: &str) -> (r: Result<serde_json::Value, String>)
    ensures
        json_outcome(text@) == match r {
            Ok(value) => Ok(value_model(value)),
            Err(why) => Err(why@),
        },
{
    serde_json::from_str(text).map_err(|why: serde_json::Error| why.to_string())
}

/// `serde_json::Value::get`: the member called `name`, as it is, where the document is an
/// object that has one.
#[verifier::external_body]
pub(crate) fn member_value(value: &serde_json::Value, name: &str) -> (r: Option<serde_json::Value>)
    ensures
        value_model(*value).get(name@) == match r {
            Some(member) => Some(value_model(member)),
            None => None,
        },
{
    value.get(name).cloned()
}

/// Opens the outermost layer of a `serde_json::Value`, variant by variant. A number
/// is read by `serde_json::Number::as_f64` (its bits, the text std shows for it, and the
/// text that `serde_json` writes for it as a binary64), by `as_u64`, and by the text the
/// document holds for it. The claim is that the layer and what lies below it are all the
/// document holds.
#[verifier::external_body]
fn open(value: serde_json::Value) -> (layer: Layer)
    ensures
        value_model(value) == layer.model(),
{
    match value {
        serde_json::Value::Null => Layer::Null,
        serde_json::Value::Bool(b) => Layer::Bool(b),
        serde_json::Value::Number(n) => {
            let x = n.as_f64().unwrap_or_default();
            let json = serde_json::Number::from_f64(x).map_or(n.to_string(), |x| x.to_string());
            let value = Number { bits: x.to_bits(), text: x.to_string(), json };
            Layer::Number { value, source: n.to_string(), whole: n.as_u64() }
        },
        serde_json::Value::String(s) => Layer::Text(s),
        serde_json::Value::Array(items) => Layer::List(items),
        serde_json::Value::Object(members) => Layer::Object(members.into_iter().collect()),
    }
}

/// The whole of a parsed document.
pub(crate) fn read(value: serde_json::Value) -> (json: Json)
    ensures
        json@ == value_model(value),
    decreases value_model(value),
{
    match open(value) {
        Layer::Null => Json::Null,
        Layer::Bool(b) => Json::Bool(b),
        Layer::Number { value, source, whole } => Json::Number { value, source, whole },
        Layer::Text(s) => Json::Text(s),
        Layer::List(items) => {
            let ghost all = items@;
            let ghost models = values_model(all);
            let mut rest = items;
            let mut done: Vec<Json> = Vec::new();
            proof {
                assert(all.skip(0) =~= rest@);
                assert(value_model(value) == JsonView::List(models));
            }
            while rest.len() > 0
                invariant
                    models == values_model(all),
                    value_model(value) == JsonView::List(models),
                    done@.len() <= all.len(),
                    rest@ == all.skip(done@.len() as int),
                    forall|i: int| 0 <= i < done@.len() ==> (#[trigger] done@[i])@ == models[i],
                decreases rest@.len(),
            {
                let ghost k = done@.len() as int;
                let item = rest.remove(0);
                proof {
                    assert(item == all[k]);
                    assert(rest@ =~= all.skip(k + 1));
                    assert(value_model(item) == models[k]);
                    let whole = value_model(value);
                    assert(decreases_to!(whole => whole->List_0[k]));
                }
                done.push(read(item));
            }
            let json = Json::List(done);
            proof {
                assert(json@->List_0 =~= models);
            }
            json
        },
        Layer::Object(members) => {
            let ghost all = members@;
            let ghost models = members_model(all);
            let mut rest = members;
            let mut done: Vec<Member> = Vec::new();
            proof {
                assert(all.skip(0) =~= rest@);
                assert(value_model(value) == JsonView::Object(models));
            }
            while rest.len() > 0
                invariant
                    models == members_model(all),
                    value_model(value) == JsonView::Object(models),
                    done@.len() <= all.len(),
                    rest@ == all.skip(done@.len() as int),
                    forall|i: int|
                        0 <= i < done@.len() ==> (#[trigger] done@[i]).name@ == models[i].name
                            && done@[i].value@ == models[i].value,
                decreases rest@.len(),
            {
                let ghost k = done@.len() as int;
                let (name, item) = rest.remove(0);
                proof {
                    assert((name, item) == all[k]);
                    assert(rest@ =~= all.skip(k + 1));
                    assert(value_model(item) == models[k].value);
                    let whole = value_model(value);
                    assert(decreases_to!(whole => whole->Object_0[k].value));
                }
                done.push(Member { name, value: read(item) });
            }
            let json = Json::Object(done);
            proof {
                assert(json@->Object_0 =~= models);
            }
            json
        },
    }
}

/// Read a text as a JSON document, or say in the reader's words why it is none.
pub fn parse(text: &str) -> (r: Result<Json, String>)
    ensures
        json_outcome(text@) == match r {
            Ok(json) => Ok(json@),
            Err(why) => Err(why@),
        },
{
    match parse_value(text) {
        Ok(value) => Ok(read(value)),
        Err(why) => Err(why),
    }
}

// --- Looking into documents -------------------------------------------------
impl JsonView {
    /// The value of the member called `name` (the last one, where a name occurs
    /// more than once).
    pub open spec fn get(self, name: Seq<char>) -> Option<JsonView> {
        match self {
            JsonView::Object(members) => member_in(members, name),
            _ => None,
        }
    }

    /// The string, where it is one.
    pub open spec fn text(self) -> Option<Seq<char>> {
        match self {
            JsonView::Text(s) => Some(s),
            _ => None,
        }
    }

    /// The unsigned integer, where it is one.
    pub open spec fn whole(self) -> Option<u64> {
        match self {
            JsonView::Number { bits, text, json, source, whole } => whole,
            _ => None,
        }
    }

    /// The items, where it is an array.
    pub open spec fn items(self) -> Option<Seq<JsonView>> {
        match self {
            JsonView::List(items) => Some(items),
            _ => None,
        }
    }

    /// The boolean, where it is one.
    pub open spec fn truth(self) -> Option<bool> {
        match self {
            JsonView::Bool(b) => Some(b),
            _ => None,
        }
    }
}

/// The value of the last member called `name`.
pub open spec fn member_in(members: Seq<MemberView>, name: Seq<char>) -> Option<JsonView>
    decreases members.len(),
{
    if members.len() == 0 {
        None
    } else if members.last().name == name {
        Some(members.last().value)
    } else {
        member_in(members.drop_last(), name)
    }
}

/// What an optional document says.
pub open spec fn opt_json(o: Option<&Json>) -> Option<JsonView> {
    match o {
        Some(json) => Some(json@),
        None => None,
    }
}

/// What a list of documents says.
pub open spec fn all_json(items: Seq<Json>) -> Seq<JsonView> {
    Seq::new(items.len(), |i: int| items[i]@)
}

impl Json {
    /// The value of the member called `name`.
    pub fn get(&self, name: &str) -> (r: Option<&Json>)
        ensures
            opt_json(r) == self@.get(name@),
    {
        match self {
            Json::Object(members) => {
                let ghost all = self@->Object_0;
                let mut i: usize = members.len();
                proof {
                    assert(all.take(i as int) =~= all);
                }
                while i > 0
                    invariant
                        i <= members@.len(),
                        all.len() == members@.len(),
                        forall|j: int|
                            0 <= j < members@.len() ==> (#[trigger] all[j]).name
                                == members@[j].name@ && all[j].value == members@[j].value@,
                        self@.get(name@) == member_in(all.take(i as int), name@),
                    decreases i,
                {
                    let ghost now = all.take(i as int);
                    proof {
                        assert(now.last() == all[i - 1]);
                        assert(now.drop_last() =~= all.take(i - 1));
                    }
                    if same(members[i - 1].name.as_str(), name) {
                        return Some(&members[i - 1].value);
                    }
                    i = i - 1;
                }
                None
            },
            _ => None,
        }
    }

    /// The string, where it is one.
    pub fn as_str(&self) -> (r: Option<&str>)
        ensures
            crate::text::opt_str(r) == self@.text(),
    {
        match self {
            Json::Text(s) => Some(s.as_str()),
            _ => None,
        }
    }

    /// The unsigned integer, where it is one.
    pub fn as_u64(&self) -> (r: Option<u64>)
        ensures
            r == self@.whole(),
    {
        match self {
            Json::Number { value: _, source: _, whole } => *whole,
            _ => None,
        }
    }

    /// The items, where it is an array.
    pub fn as_array(&self) -> (r: Option<&Vec<Json>>)
        ensures
            match r {
                Some(items) => self@.items() == Some(all_json(items@)),
                None => self@.items() is None,
            },
    {
        match self {
            Json::List(items) => {
                proof {
                    assert(self@->List_0 =~= all_json(items@));
                }
                Some(items)
            },
            _ => None,
        }
    }

    /// The boolean, where it is one.
    pub fn as_bool(&self) -> (r: Option<bool>)
        ensures
            r == self@.truth(),
    {
        match self {
            Json::Bool(b) => Some(*b),
            _ => None,
        }
    }
}

// --- Writing ----------------------------------------------------------------
/// One hexadecimal digit, in lower case.
pub open spec fn hex(d: int) -> char {
    if d < 10 {
        crate::text::digit(d as nat)
    } else if d == 10 {
        'a'
    } else if d == 11 {
        'b'
    } else if d == 12 {
        'c'
    } else if d == 13 {
        'd'
    } else if d == 14 {
        'e'
    } else {
        'f'
    }
}

/// One character inside a JSON string: the quote, the backslash and the control
/// characters are escaped, everything else stands for itself.
pub open spec fn escaped(c: char) -> Seq<char> {
    let n = c as u32;
    if c == '"' {
        seq!['\\', '"']
    } else if c == '\\' {
        seq!['\\', '\\']
    } else if n == 0x8 {
        seq!['\\', 'b']
    } else if n == 0x9 {
        seq!['\\', 't']
    } else if n == 0xa {
        seq!['\\', 'n']
    } else if n == 0xc {
        seq!['\\', 'f']
    } else if n == 0xd {
        seq!['\\', 'r']
    } else if n < 0x20 {
        seq!['\\', 'u', '0', '0', hex(n as int / 16), hex(n as int % 16)]
    } else {
        seq![c]
    }
}

/// The characters of a string inside its JSON form.
pub open spec fn all_escaped(s: Seq<char>) -> Seq<char>
    decreases s.len(),
{
    if s.len() == 0 {
        Seq::empty()
    } else {
        all_escaped(s.drop_last()) + escaped(s.last())
    }
}

/// The JSON form of a string.
pub open spec fn quoted(s: Seq<char>) -> Seq<char> {
    seq!['"'] + all_escaped(s) + seq!['"']
}

/// The compact text that `serde_json` writes for a string value: the string between
/// quotes, with the quote, the backslash and the control characters escaped.
#[verifier::external_body]
fn quote(s: &str) -> (r: String)
    ensures
        r@ == quoted(s@),
{
    serde_json::Value::from(s).to_string()
}

/// The compact text of a document.
pub open spec fn written(json: JsonView) -> Seq<char>
    decreases json, 0nat,
{
    match json {
        JsonView::Null => "null"@,
        JsonView::Bool(b) => if b {
            "true"@
        } else {
            "false"@
        },
        JsonView::Number { bits, text, json, source, whole } => source,
        JsonView::Text(s) => quoted(s),
        JsonView::List(items) => "["@ + joined(written_items(items, items.len()), ","@) + "]"@,
        JsonView::Object(members) => "{"@ + joined(
            written_members(members, members.len()),
            ","@,
        ) + "}"@,
        JsonView::Written(s) => s,
    }
}

/// The compact texts of the first `n` items.
pub open spec fn written_items(items: Seq<JsonView>, n: nat) -> Seq<Seq<char>>
    decreases items, n,
{
    if n == 0 || n > items.len() {
        Seq::empty()
    } else {
        written_items(items, (n - 1) as nat).push(written(items[n - 1]))
    }
}

/// The compact texts of the first `n` members.
pub open spec fn written_members(members: Seq<MemberView>, n: nat) -> Seq<Seq<char>>
    decreases members, n,
{
    if n == 0 || n > members.len() {
        Seq::empty()
    } else {
        written_members(members, (n - 1) as nat).push(
            quoted(members[n - 1].name) + ":"@ + written(members[n - 1].value),
        )
    }
}

impl Json {
    /// The compact text of this document.
    pub fn write(&self) -> (r: String)
        ensures
            r@ == written(self@),
        decreases *self,
    {
        match self {
            Json::Null => "null".to_owned(),
            Json::Bool(b) => if *b {
                "true".to_owned()
            } else {
                "false".to_owned()
            },
            Json::Number { value: _, source, whole: _ } => source.clone(),
            Json::Text(s) => quote(s.as_str()),
            Json::List(items) => {
                let mut parts: Vec<String> = Vec::new();
                let mut i: usize = 0;
                let ghost models = self@->List_0;
                proof {
                    assert(texts(parts@) =~= Seq::empty());
                }
                while i < items.len()
                    invariant
                        i <= items@.len(),
                        *self == Json::List(*items),
                        models == self@->List_0,
                        models.len() == items@.len(),
                        texts(parts@) == written_items(models, i as nat),
                    decreases items@.len() - i,
                {
                    let ghost before = texts(parts@);
                    proof {
                        let whole = *self;
                        let v = whole->List_0;
                        assert(decreases_to!(v => v@[i as int]));
                        assert(decreases_to!(whole => v));
                    }
                    parts.push(items[i].write());
                    i = i + 1;
                    proof {
                        assert(texts(parts@) =~= before.push(parts@.last()@));
                    }
                }
                let mut out = "[".to_owned();
                out.append(join(parts.as_slice(), ",").as_str());
                out.append("]");
                out
            },
            Json::Object(members) => {
                let mut parts: Vec<String> = Vec::new();
                let mut i: usize = 0;
                let ghost models = self@->Object_0;
                proof {
                    assert(texts(parts@) =~= Seq::empty());
                }
                while i < members.len()
                    invariant
                        i <= members@.len(),
                        *self == Json::Object(*members),
                        models == self@->Object_0,
                        models.len() == members@.len(),
                        texts(parts@) == written_members(models, i as nat),
                    decreases members@.len() - i,
                {
                    let ghost before = texts(parts@);
                    proof {
                        let whole = *self;
                        let v = whole->Object_0;
                        assert(decreases_to!(v => v@[i as int]));
                        assert(decreases_to!(whole => v));
                    }
                    let mut part = quote(members[i].name.as_str());
                    part.append(":");
                    part.append(members[i].value.write().as_str());
                    parts.push(part);
                    i = i + 1;
                    proof {
                        assert(texts(parts@) =~= before.push(parts@.last()@));
                    }
                }
                let mut out = "{".to_owned();
                out.append(join(parts.as_slice(), ",").as_str());
                out.append("}");
                out
            },
            Json::Written(s) => s.clone(),
        }
    }

    /// A binary64.
    pub fn binary64(value: Number) -> (json: Json)
        ensures
            json@ == (JsonView::Number {
                bits: value.bits,
                text: value.text@,
                json: value.json@,
                source: value.json@,
                whole: None,
            }),
    {
        let source = value.json.clone();
        Json::Number { value, source, whole: None }
    }

    /// An unsigned integer.
    pub fn count(n: u64) -> (json: Json)
        ensures
            written(json@) == crate::text::decimal(n as nat),
            json@ is Number,
            json@.whole() == Some(n),
    {
        let text = crate::text::decimal_of(n);
        let value = Number { bits: 0, text: text.clone(), json: text.clone() };
        Json::Number { value, source: text, whole: Some(n) }
    }

    /// A string.
    pub fn string(s: &str) -> (json: Json)
        ensures
            json@ == JsonView::Text(s@),
    {
        Json::Text(s.to_owned())
    }
}

/// An object under construction, member by member.
pub struct ObjectWriter {
    members: Vec<Member>,
}

impl ObjectWriter {
    /// The members so far.
    pub closed spec fn so_far(self) -> Seq<MemberView> {
        members_of(self.members@)
    }

    /// No members yet.
    pub fn new() -> (object: Self)
        ensures
            object.so_far() == Seq::<MemberView>::empty(),
    {
        let object = ObjectWriter { members: Vec::new() };
        proof {
            assert(object.so_far() =~= Seq::empty());
        }
        object
    }

    /// Add a member.
    pub fn put(&mut self, name: &str, value: Json)
        ensures
            final(self).so_far() == old(self).so_far().push(
                MemberView { name: name@, value: value@ },
            ),
    {
        let ghost before = self.so_far();
        self.members.push(Member { name: name.to_owned(), value });
        proof {
            assert(self.so_far() =~= before.push(MemberView { name: name@, value: value@ }));
        }
    }

    /// Add a string member.
    pub fn put_str(&mut self, name: &str, value: &str)
        ensures
            final(self).so_far() == old(self).so_far().push(text_member(name@, value@)),
    {
        self.put(name, Json::string(value));
    }

    /// The object.
    pub fn done(self) -> (json: Json)
        ensures
            json@ == JsonView::Object(self.so_far()),
    {
        let ghost all = self.so_far();
        let json = Json::Object(self.members);
        proof {
            assert(json@->Object_0 =~= all);
        }
        json
    }
}

/// What a list of members says.
pub open spec fn members_of(members: Seq<Member>) -> Seq<MemberView> {
    Seq::new(
        members.len(),
        |i: int| MemberView { name: members[i].name@, value: members[i].value@ },
    )
}

/// A string member.
pub open spec fn text_member(name: Seq<char>, value: Seq<char>) -> MemberView {
    MemberView { name, value: JsonView::Text(value) }
}

/// A list of documents as one document.
pub fn list(items: Vec<Json>) -> (json: Json)
    ensures
        json@ == JsonView::List(all_json(items@)),
{
    let json = Json::List(items);
    proof {
        assert(json@->List_0 =~= all_json(items@));
    }
    json
}

/// The JSON forms of a list of strings.
pub open spec fn text_items(v: Seq<String>) -> Seq<JsonView> {
    Seq::new(v.len(), |i: int| JsonView::Text(v[i]@))
}

/// A list of strings as one document.
pub fn strings(v: &[String]) -> (json: Json)
    ensures
        json@ == JsonView::List(text_items(v@)),
{
    let mut items: Vec<Json> = Vec::new();
    let mut i: usize = 0;
    while i < v.len()
        invariant
            i <= v@.len(),
            items@.len() == i,
            forall|j: int| 0 <= j < i ==> (#[trigger] items@[j])@ == JsonView::Text(v@[j]@),
        decreases v@.len() - i,
    {
        items.push(Json::string(v[i].as_str()));
        i = i + 1;
    }
    proof {
        assert(all_json(items@) =~= text_items(v@));
    }
    list(items)
}

// --- One line -----------------------------------------------------------------
/// Whether a text stays on one line.
pub open spec fn one_line(s: Seq<char>) -> bool {
    !s.contains('\n')
}

/// Whether what a document holds already written — its numbers, and the documents
/// carried as texts — stays on one line.
pub open spec fn plain(json: JsonView) -> bool
    decreases json,
{
    match json {
        JsonView::Null | JsonView::Bool(_) | JsonView::Text(_) => true,
        JsonView::Number { bits, text, json, source, whole } => one_line(source),
        JsonView::Written(s) => one_line(s),
        JsonView::List(items) => forall|i: int|
            0 <= i < items.len() ==> plain(#[trigger] items[i]),
        JsonView::Object(members) => forall|i: int|
            0 <= i < members.len() ==> plain((#[trigger] members[i]).value),
    }
}

proof fn lemma_lines_add(a: Seq<char>, b: Seq<char>)
    ensures
        one_line(a + b) <==> one_line(a) && one_line(b),
{
    if one_line(a) && one_line(b) {
        assert forall|i: int| 0 <= i < (a + b).len() implies (a + b)[i] != '\n' by {
            if i < a.len() {
                assert(a[i] != '\n');
            } else {
                assert(b[i - a.len()] != '\n');
            }
        }
    }
    if a.contains('\n') {
        let i = choose|i: int| 0 <= i < a.len() && a[i] == '\n';
        assert((a + b)[i] == '\n');
    }
    if b.contains('\n') {
        let i = choose|i: int| 0 <= i < b.len() && b[i] == '\n';
        assert((a + b)[a.len() + i] == '\n');
    }
}

proof fn lemma_escaped_on_one_line(s: Seq<char>)
    ensures
        one_line(all_escaped(s)),
    decreases s.len(),
{
    if s.len() > 0 {
        lemma_escaped_on_one_line(s.drop_last());
        let c = s.last();
        let n = c as u32;
        assert(one_line(escaped(c))) by {
            let e = escaped(c);
            assert('\n' as u32 == 0xa);
            assert forall|i: int| 0 <= i < e.len() implies e[i] != '\n' by {
                if c == '"' || c == '\\' || n == 0x8 || n == 0x9 || n == 0xa || n == 0xc || n
                    == 0xd {
                } else if n < 0x20 {
                    assert(hex(n as int / 16) != '\n' && hex(n as int % 16) != '\n');
                }
            }
        }
        lemma_lines_add(all_escaped(s.drop_last()), escaped(c));
    }
}

proof fn lemma_joined_on_one_line(parts: Seq<Seq<char>>, sep: Seq<char>)
    requires
        one_line(sep),
        forall|i: int| 0 <= i < parts.len() ==> one_line(#[trigger] parts[i]),
    ensures
        one_line(joined(parts, sep)),
    decreases parts.len(),
{
    if parts.len() == 0 {
    } else if parts.len() == 1 {
        assert(one_line(parts[0]));
    } else {
        let earlier = parts.drop_last();
        assert(parts =~= earlier.push(parts.last()));
        assert forall|i: int| 0 <= i < earlier.len() implies one_line(#[trigger] earlier[i]) by {
            assert(earlier[i] == parts[i]);
        }
        lemma_joined_on_one_line(earlier, sep);
        crate::text::lemma_joined_push(earlier, parts.last(), sep);
        lemma_lines_add(joined(earlier, sep), sep);
        lemma_lines_add(joined(earlier, sep) + sep, parts.last());
    }
}

proof fn lemma_quoted_on_one_line(s: Seq<char>)
    ensures
        one_line(quoted(s)),
{
    lemma_escaped_on_one_line(s);
    assert(one_line(seq!['"']));
    lemma_lines_add(seq!['"'], all_escaped(s));
    lemma_lines_add(seq!['"'] + all_escaped(s), seq!['"']);
}

proof fn lemma_items_on_one_line(items: Seq<JsonView>, n: nat)
    requires
        n <= items.len(),
        forall|i: int| 0 <= i < items.len() ==> plain(#[trigger] items[i]),
    ensures
        written_items(items, n).len() == n,
        forall|i: int| 0 <= i < n ==> one_line(#[trigger] written_items(items, n)[i]),
    decreases items, n,
{
    if n > 0 {
        lemma_items_on_one_line(items, (n - 1) as nat);
        lemma_written_on_one_line(items[n - 1]);
        let earlier = written_items(items, (n - 1) as nat);
        assert forall|i: int| 0 <= i < n implies one_line(
            #[trigger] written_items(items, n)[i],
        ) by {
            if i < n - 1 {
                assert(one_line(earlier[i]));
            }
        }
    }
}

proof fn lemma_members_on_one_line(members: Seq<MemberView>, n: nat)
    requires
        n <= members.len(),
        forall|i: int| 0 <= i < members.len() ==> plain((#[trigger] members[i]).value),
    ensures
        written_members(members, n).len() == n,
        forall|i: int| 0 <= i < n ==> one_line(#[trigger] written_members(members, n)[i]),
    decreases members, n,
{
    if n > 0 {
        lemma_members_on_one_line(members, (n - 1) as nat);
        let member = members[n - 1];
        lemma_written_on_one_line(member.value);
        lemma_quoted_on_one_line(member.name);
        reveal_strlit(":");
        lemma_lines_add(quoted(member.name), ":"@);
        lemma_lines_add(quoted(member.name) + ":"@, written(member.value));
        let earlier = written_members(members, (n - 1) as nat);
        assert forall|i: int| 0 <= i < n implies one_line(
            #[trigger] written_members(members, n)[i],
        ) by {
            if i < n - 1 {
                assert(one_line(earlier[i]));
            }
        }
    }
}

/// **A document takes one line**: however many lines the strings in it have, none of
/// them breaks the line the document is written on, unless something carried as a
/// text does.
pub proof fn lemma_written_on_one_line(json: JsonView)
    requires
        plain(json),
    ensures
        one_line(written(json)),
    decreases json, 0nat,
{
    reveal_strlit("null");
    reveal_strlit("true");
    reveal_strlit("false");
    reveal_strlit("[");
    reveal_strlit("]");
    reveal_strlit("{");
    reveal_strlit("}");
    reveal_strlit(",");
    match json {
        JsonView::Text(s) => {
            lemma_quoted_on_one_line(s);
        },
        JsonView::List(items) => {
            lemma_items_on_one_line(items, items.len());
            let parts = written_items(items, items.len());
            lemma_joined_on_one_line(parts, ","@);
            lemma_lines_add("["@, joined(parts, ","@));
            lemma_lines_add("["@ + joined(parts, ","@), "]"@);
        },
        JsonView::Object(members) => {
            lemma_members_on_one_line(members, members.len());
            let parts = written_members(members, members.len());
            lemma_joined_on_one_line(parts, ","@);
            lemma_lines_add("{"@, joined(parts, ","@));
            lemma_lines_add("{"@ + joined(parts, ","@), "}"@);
        },
        _ => {},
    }
}

/// **A member is found by its name**: what an object gives for a name is the value of the
/// last member called so, and nothing where none is.
pub proof fn lemma_a_member_is_found_by_its_name(members: Seq<MemberView>, name: Seq<char>)
    ensures
        match JsonView::Object(members).get(name) {
            Some(value) => exists|i: int|
                {
                    &&& 0 <= i < members.len()
                    &&& (#[trigger] members[i]) == (MemberView { name, value })
                    &&& forall|j: int| i < j < members.len() ==> (#[trigger] members[j]).name != name
                },
            None => forall|i: int| 0 <= i < members.len() ==> (#[trigger] members[i]).name != name,
        },
    decreases members.len(),
{
    if members.len() > 0 {
        let earlier = members.drop_last();
        let last = members[members.len() - 1];
        lemma_a_member_is_found_by_its_name(earlier, name);
        if last.name == name {
            assert(members[members.len() - 1] == (MemberView { name, value: last.value }));
        } else {
            match JsonView::Object(earlier).get(name) {
                Some(value) => {
                    let i = choose|i: int|
                        {
                            &&& 0 <= i < earlier.len()
                            &&& (#[trigger] earlier[i]) == (MemberView { name, value })
                            &&& forall|j: int|
                                i < j < earlier.len() ==> (#[trigger] earlier[j]).name != name
                        };
                    assert(members[i] == earlier[i]);
                    assert forall|j: int| i < j < members.len() implies (
                    #[trigger] members[j]).name != name by {
                        if j < earlier.len() {
                            assert(members[j] == earlier[j]);
                        }
                    }
                },
                None => {
                    assert forall|i: int| 0 <= i < members.len() implies (
                    #[trigger] members[i]).name != name by {
                        if i < earlier.len() {
                            assert(members[i] == earlier[i]);
                        }
                    }
                },
            }
        }
    }
}

proof fn lemma_each_part_is_written(items: Seq<JsonView>, members: Seq<MemberView>, n: nat, m: nat)
    requires
        n <= items.len(),
        m <= members.len(),
    ensures
        written_items(items, n).len() == n,
        forall|i: int| 0 <= i < n ==> #[trigger] written_items(items, n)[i] == written(items[i]),
        written_members(members, m).len() == m,
        forall|i: int|
            0 <= i < m ==> #[trigger] written_members(members, m)[i] == quoted(members[i].name)
                + ":"@ + written(members[i].value),
    decreases n + m,
{
    if n > 0 {
        lemma_each_part_is_written(items, members, (n - 1) as nat, 0);
    }
    if m > 0 {
        lemma_each_part_is_written(items, members, 0, (m - 1) as nat);
    }
}

/// **A document is written part by part, in order**: an array is its items' texts and an
/// object its members' — each its name and its value's text — with commas between them,
/// inside brackets.
pub proof fn lemma_documents_are_written_in_order(
    items: Seq<JsonView>,
    members: Seq<MemberView>,
    texts: Seq<Seq<char>>,
    pairs: Seq<Seq<char>>,
)
    requires
        texts.len() == items.len(),
        forall|i: int| 0 <= i < items.len() ==> #[trigger] texts[i] == written(items[i]),
        pairs.len() == members.len(),
        forall|i: int|
            0 <= i < members.len() ==> #[trigger] pairs[i] == quoted(members[i].name) + ":"@
                + written(members[i].value),
    ensures
        exists|inner: Seq<char>, at: Seq<int>|
            written(JsonView::List(items)) == seq!['['] + inner + seq![']']
                && #[trigger] crate::text::laid_out(inner, texts, seq![','], at),
        exists|inner: Seq<char>, at: Seq<int>|
            written(JsonView::Object(members)) == seq!['{'] + inner + seq!['}']
                && #[trigger] crate::text::laid_out(inner, pairs, seq![','], at),
{
    lemma_each_part_is_written(items, members, items.len(), members.len());
    assert(written_items(items, items.len()) =~= texts);
    assert(written_members(members, members.len()) =~= pairs);
    reveal_strlit("[");
    reveal_strlit("]");
    reveal_strlit("{");
    reveal_strlit("}");
    reveal_strlit(",");
    assert("["@ =~= seq!['[']);
    assert("]"@ =~= seq![']']);
    assert("{"@ =~= seq!['{']);
    assert("}"@ =~= seq!['}']);
    assert(","@ =~= seq![',']);
    crate::text::lemma_joined_is_laid_out(texts, seq![',']);
    crate::text::lemma_joined_is_laid_out(pairs, seq![',']);
    let at = choose|at: Seq<int>|
        crate::text::laid_out(joined(texts, seq![',']), texts, seq![','], at);
    assert(crate::text::laid_out(joined(texts, seq![',']), texts, seq![','], at));
    let at = choose|at: Seq<int>|
        crate::text::laid_out(joined(pairs, seq![',']), pairs, seq![','], at);
    assert(crate::text::laid_out(joined(pairs, seq![',']), pairs, seq![','], at));
}

/// A member whose name no other has is what its name gives.
pub proof fn lemma_the_only_member_of_its_name(members: Seq<MemberView>, i: int)
    requires
        0 <= i < members.len(),
        forall|j: int|
            0 <= j < members.len() && j != i ==> (#[trigger] members[j]).name != members[i].name,
    ensures
        JsonView::Object(members).get(members[i].name) == Some(members[i].value),
{
    lemma_a_member_is_found_by_its_name(members, members[i].name);
}

/// **A document is written as it is**: a boolean by its word, a number as it was given, a
/// text between quotes, an array as its items are written, one after another.
pub proof fn lemma_a_document_is_written_as_it_is(json: Json, parts: Seq<String>, r: String)
    requires
        call_ensures(Json::write, (&json,), r),
        json is List ==> parts.len() == json->List_0@.len() && forall|i: int|
            0 <= i < parts.len() ==> call_ensures(
                Json::write,
                (&json->List_0@[i],),
                #[trigger] parts[i],
            ),
    ensures
        json is Null ==> r@ == "null"@,
        json is Bool && json->Bool_0 ==> r@ == "true"@,
        json is Bool && !json->Bool_0 ==> r@ == "false"@,
        json is Number ==> r@ == json->source@,
        json is Text ==> {
            &&& r@.len() >= json->Text_0@.len() + 2
            &&& r@[0] == '"' && r@.last() == '"'
            &&& (forall|i: int|
                0 <= i < json->Text_0@.len() ==> (#[trigger] json->Text_0@[i]) as u32 >= 0x20
                    && json->Text_0@[i] != '"' && json->Text_0@[i] != '\\') ==> r@ == seq!['"']
                + json->Text_0@ + seq!['"']
        },
        json is List ==> exists|inner: Seq<char>, at: Seq<int>|
            r@ == seq!['['] + inner + seq![']'] && #[trigger] crate::text::laid_out(
                inner,
                crate::text::texts(parts),
                seq![','],
                at,
            ),
{
    if json is Text {
        lemma_plain_text_stands_for_itself(json->Text_0@);
    }
    if json is List {
        let items = json@->List_0;
        assert forall|i: int| 0 <= i < items.len() implies #[trigger] crate::text::texts(parts)[i]
            == written(items[i]) by {
            assert(call_ensures(Json::write, (&json->List_0@[i],), parts[i]));
        }
        lemma_documents_are_written_in_order(
            items,
            Seq::empty(),
            crate::text::texts(parts),
            Seq::empty(),
        );
    }
}

/// Escaping lengthens, and leaves what needs none as it is.
proof fn lemma_plain_text_stands_for_itself(s: Seq<char>)
    ensures
        all_escaped(s).len() >= s.len(),
        (forall|i: int|
            0 <= i < s.len() ==> (#[trigger] s[i]) as u32 >= 0x20 && s[i] != '"' && s[i] != '\\')
            ==> all_escaped(s) == s,
    decreases s.len(),
{
    if s.len() > 0 {
        let front = s.drop_last();
        lemma_plain_text_stands_for_itself(front);
        if forall|i: int|
            0 <= i < s.len() ==> (#[trigger] s[i]) as u32 >= 0x20 && s[i] != '"' && s[i] != '\\' {
            assert forall|i: int| 0 <= i < front.len() implies (#[trigger] front[i]) as u32 >= 0x20
                && front[i] != '"' && front[i] != '\\' by {
                assert(front[i] == s[i]);
            }
            assert(s[s.len() - 1] == s.last());
            assert(all_escaped(s) =~= s);
        }
    } else {
        assert(all_escaped(s) =~= s);
    }
}

/// **A value is read as what it is, and as nothing else**: a text, a whole number, a boolean
/// and an array each by their own reader; and a name gives the value of the last member
/// called so.
pub proof fn lemma_a_value_is_read_as_what_it_is(
    json: Json,
    name: &str,
    i: int,
    text: Option<&str>,
    whole: Option<u64>,
    truth: Option<bool>,
    items: Option<&Vec<Json>>,
    got: Option<&Json>,
)
    requires
        call_ensures(Json::as_str, (&json,), text),
        call_ensures(Json::as_u64, (&json,), whole),
        call_ensures(Json::as_bool, (&json,), truth),
        call_ensures(Json::as_array, (&json,), items),
        call_ensures(Json::get, (&json, name), got),
    ensures
        text is Some <==> json is Text,
        json is Text ==> text->0@ == json->Text_0@,
        json is Number ==> whole == json->whole,
        whole is Some ==> json is Number,
        truth is Some <==> json is Bool,
        json is Bool ==> truth->0 == json->Bool_0,
        items is Some <==> json is List,
        json is List ==> all_json(items->0@) =~= all_json(json->List_0@),
        !(json is Object) ==> got is None,
        json is Object && 0 <= i < json->Object_0@.len() && json->Object_0@[i].name@ == name@ && (
        forall|j: int|
            i < j < json->Object_0@.len() ==> (#[trigger] json->Object_0@[j]).name@ != name@)
            ==> got is Some && got->0@ == json->Object_0@[i].value@,
        json is Object && (forall|j: int|
            0 <= j < json->Object_0@.len() ==> (#[trigger] json->Object_0@[j]).name@ != name@)
            ==> got is None,
{
    if json is Object {
        let members = json@->Object_0;
        lemma_a_member_is_found_by_its_name(members, name@);
        assert(forall|j: int|
            0 <= j < members.len() ==> (#[trigger] members[j]).name == json->Object_0@[j].name@
                && members[j].value == json->Object_0@[j].value@);
        if 0 <= i < members.len() && members[i].name == name@ && forall|j: int|
            i < j < members.len() ==> (#[trigger] json->Object_0@[j]).name@ != name@ {
            let k = choose|k: int|
                {
                    &&& 0 <= k < members.len()
                    &&& (#[trigger] members[k]) == (MemberView {
                        name: name@,
                        value: json@.get(name@)->0,
                    })
                    &&& forall|j: int|
                        k < j < members.len() ==> (#[trigger] members[j]).name != name@
                };
            assert(members[i].name == name@);
            if k > i {
                assert(json->Object_0@[k].name@ != name@);
            }
            assert(k == i);
        }
    }
}

} // verus!

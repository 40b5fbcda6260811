//! JSON documents: what `serde_json` reads, as a tree of the library's own.

use crate::number::Real;
use crate::text::str_eq;
use vstd::prelude::*;

verus! {

/// The content of a JSON document. A number is given as the integer that it is, if it
/// is one of 64 bits, and as the double nearest to it.
pub enum Doc {
    Null,
    Bool(bool),
    Number(Option<i64>, Option<Real>),
    Text(Seq<char>),
    Array(Seq<Doc>),
    Object(Seq<(Seq<char>, Doc)>),
}

impl Doc {
    /// The position of the first member called `key`, among `members` from `i` on.
    pub open spec fn position(members: Seq<(Seq<char>, Doc)>, key: Seq<char>, i: int) -> Option<int>
        decreases members.len() - i,
    {
        if i < 0 || i >= members.len() {
            None
        } else if members[i].0 == key {
            Some(i)
        } else {
            Doc::position(members, key, i + 1)
        }
    }

    /// The member called `key`, if the document is an object that has it.
    pub open spec fn get(self, key: Seq<char>) -> Option<Doc> {
        match self {
            Doc::Object(members) => match Doc::position(members, key, 0) {
                Some(i) => Some(members[i].1),
                None => None,
            },
            _ => None,
        }
    }

    /// The text, if the document is one.
    pub open spec fn text(self) -> Option<Seq<char>> {
        match self {
            Doc::Text(s) => Some(s),
            _ => None,
        }
    }

    /// The integer, if the document is one of 64 bits.
    pub open spec fn integer(self) -> Option<i64> {
        match self {
            Doc::Number(i, _) => i,
            _ => None,
        }
    }

    /// The double nearest to the number, if the document is one.
    pub open spec fn number(self) -> Option<Real> {
        match self {
            Doc::Number(_, x) => x,
            _ => None,
        }
    }

    /// The text of the member called `key`.
    pub open spec fn text_at(self, key: Seq<char>) -> Option<Seq<char>> {
        match self.get(key) {
            Some(d) => d.text(),
            None => None,
        }
    }

    /// The integer of the member called `key`.
    pub open spec fn integer_at(self, key: Seq<char>) -> Option<i64> {
        match self.get(key) {
            Some(d) => d.integer(),
            None => None,
        }
    }

    /// The double of the member called `key`.
    pub open spec fn number_at(self, key: Seq<char>) -> Option<Real> {
        match self.get(key) {
            Some(d) => d.number(),
            None => None,
        }
    }
}

/// A JSON document.
#[derive(Debug)]
pub enum Json {
    Null,
    Bool(bool),
    Number(Option<i64>, Option<Real>),
    Text(String),
    Array(Vec<Json>),
    Object(Vec<(String, Json)>),
}

impl Json {
    /// The content of the document.
    pub open spec fn doc(self) -> Doc
        decreases self,
    {
        match self {
            Json::Null => Doc::Null,
            Json::Bool(b) => Doc::Bool(b),
            Json::Number(i, x) => Doc::Number(i, x),
            Json::Text(s) => Doc::Text(s@),
            Json::Array(a) => Doc::Array(
                Seq::new(
                    a@.len(),
                    |i: int|
                        if 0 <= i < a@.len() {
                            a@[i].doc()
                        } else {
                            Doc::Null
                        },
                ),
            ),
            Json::Object(m) => Doc::Object(
                Seq::new(
                    m@.len(),
                    |i: int|
                        if 0 <= i < m@.len() {
                            (m@[i].0@, m@[i].1.doc())
                        } else {
                            (Seq::empty(), Doc::Null)
                        },
                ),
            ),
        }
    }

    /// The member called `key`, if the document is an object that has it.
    pub fn get(&self, key: &str) -> (r: Option<&Json>)
        ensures
            match r {
                Some(j) => self.doc().get(key@) == Some(j.doc()),
                None => self.doc().get(key@) is None,
            },
    {
        match self {
            Json::Object(m) => {
                let ghost members = self.doc()->Object_0;
                let mut i: usize = 0;
                while i < m.len()
                    invariant
                        *self == Json::Object(*m),
                        self.doc() == Doc::Object(members),
                        i <= m@.len() == members.len(),
                        forall|k: int|
                            0 <= k < m@.len() ==> #[trigger] members[k] == (m@[k].0@, m@[k].1.doc()),
                        Doc::position(members, key@, 0) == Doc::position(members, key@, i as int),
                    decreases m@.len() - i,
                {
                    assert(members[i as int] == (m@[i as int].0@, m@[i as int].1.doc()));
                    if str_eq(m[i].0.as_str(), key) {
                        return Some(&m[i].1);
                    }
                    i = i + 1;
                }
                None
            },
            _ => None,
        }
    }

    /// The text, if the document is one.
    pub fn as_text(&self) -> (r: Option<&String>)
        ensures
            match r {
                Some(s) => self.doc().text() == Some(s@),
                None => self.doc().text() is None,
            },
    {
        match self {
            Json::Text(s) => Some(s),
            _ => None,
        }
    }

    /// The text of the member called `key`.
    pub fn text_at(&self, key: &str) -> (r: Option<String>)
        ensures
            match r {
                Some(s) => self.doc().text_at(key@) == Some(s@),
                None => self.doc().text_at(key@) is None,
            },
    {
        match self.get(key) {
            Some(j) => match j.as_text() {
                Some(s) => Some(s.clone()),
                None => None,
            },
            None => None,
        }
    }

    /// The integer of the member called `key`.
    pub fn integer_at(&self, key: &str) -> (r: Option<i64>)
        ensures
            r == self.doc().integer_at(key@),
    {
        match self.get(key) {
            Some(Json::Number(i, _)) => *i,
            _ => None,
        }
    }

    /// The double of the member called `key`.
    pub fn number_at(&self, key: &str) -> (r: Option<Real>)
        ensures
            r == self.doc().number_at(key@),
    {
        match self.get(key) {
            Some(Json::Number(_, x)) => *x,
            _ => None,
        }
    }
}

/// The document type of `serde_json`.
#[verifier::external_type_specification]
#[verifier::external_body]
pub struct ExValue(serde_json::Value);

/// The content of a document of `serde_json`.
pub uninterp spec fn value_doc(v: serde_json::Value) -> Doc;

/// What `serde_json::from_str` reads out of a text: none where the text is not JSON.
pub uninterp spec fn json_doc(text: Seq<char>) -> Option<Doc>;

/// One level of a document of `serde_json`.
enum Node {
    Null,
    Bool(bool),
    Number(Option<i64>, Option<u64>),
    Text(String),
    Array(Vec<serde_json::Value>),
    Object(Vec<(String, serde_json::Value)>),
}

impl Node {
    /// The content of the document that this is one level of.
    spec fn doc(self) -> Doc {
        match self {
            Node::Null => Doc::Null,
            Node::Bool(b) => Doc::Bool(b),
            Node::Number(i, x) => Doc::Number(
                i,
                match x {
                    Some(bits) => Some(Real { bits }),
                    None => None,
                },
            ),
            Node::Text(s) => Doc::Text(s@),
            Node::Array(a) => Doc::Array(Seq::new(a@.len(), |i: int| value_doc(a@[i]))),
            Node::Object(m) => Doc::Object(
                Seq::new(m@.len(), |i: int| (m@[i].0@, value_doc(m@[i].1))),
            ),
        }
    }
}

/// `serde_json::from_str` into `serde_json::Value`. The contract claims that whether it
/// succeeds, and the document it gives, are functions of the text.
#[verifier::external_body]
fn parse_value(text: &str) -> (r: Option<serde_json::Value>)
    ensures
        match r {
            Some(v) => json_doc(text@) == Some(value_doc(v)),
            None => json_doc(text@) is None,
        },
{
    serde_json::from_str(text).ok()
}

/// The variants of `serde_json::Value`, taken apart by one level. The contract claims
/// that the level is that of the document: for a number, what `Number::as_i64` and
/// `Number::as_f64` give, and for an object its entries.
#[verifier::external_body]
fn node_of(v: serde_json::Value) -> (r: Node)
    ensures
        r.doc() == value_doc(v),
{
    match v {
        serde_json::Value::Null => Node::Null,
        serde_json::Value::Bool(b) => Node::Bool(b),
        serde_json::Value::Number(n) => Node::Number(n.as_i64(), n.as_f64().map(|x| x.to_bits())),
        serde_json::Value::String(s) => Node::Text(s),
        serde_json::Value::Array(a) => Node::Array(a),
        serde_json::Value::Object(m) => Node::Object(m.into_iter().collect()),
    }
}

/// The document of `serde_json` as a tree of the library.
fn tree_of(v: serde_json::Value) -> (r: Json)
    ensures
        r.doc() == value_doc(v),
    decreases value_doc(v),
{
    let ghost whole = value_doc(v);
    match node_of(v) {
        Node::Null => Json::Null,
        Node::Bool(b) => Json::Bool(b),
        Node::Number(i, x) => Json::Number(
            i,
            match x {
                Some(bits) => Some(Real { bits }),
                None => None,
            },
        ),
        Node::Text(s) => Json::Text(s),
        Node::Array(a) => {
            let ghost items = a@;
            let mut out: Vec<Json> = Vec::new();
            for x in it: a.into_iter()
                invariant
                    it.seq() == items,
                    whole == value_doc(v),
                    whole == Doc::Array(Seq::new(items.len(), |i: int| value_doc(items[i]))),
                    out@.len() == it.index(),
                    forall|k: int|
                        0 <= k < out@.len() ==> (#[trigger] out@[k]).doc() == value_doc(items[k]),
            {
                assert(whole->Array_0[it.index()] == value_doc(x));
                assert(decreases_to!(whole => whole->Array_0));
                assert(decreases_to!(whole->Array_0 => whole->Array_0[it.index()]));
                out.push(tree_of(x));
            }
            let r = Json::Array(out);
            assert(r.doc()->Array_0 =~= whole->Array_0);
            r
        },
        Node::Object(m) => {
            let ghost items = m@;
            let mut out: Vec<(String, Json)> = Vec::new();
            for x in it: m.into_iter()
                invariant
                    it.seq() == items,
                    whole == value_doc(v),
                    whole == Doc::Object(
                        Seq::new(items.len(), |i: int| (items[i].0@, value_doc(items[i].1))),
                    ),
                    out@.len() == it.index(),
                    forall|k: int|
                        0 <= k < out@.len() ==> (#[trigger] out@[k]).0@ == items[k].0@
                            && out@[k].1.doc() == value_doc(items[k].1),
            {
                assert(whole->Object_0[it.index()] == (x.0@, value_doc(x.1)));
                assert(decreases_to!(whole => whole->Object_0));
                assert(decreases_to!(whole->Object_0 => whole->Object_0[it.index()]));
                assert(decreases_to!(whole->Object_0[it.index()] => whole->Object_0[it.index()].1));
                let j = tree_of(x.1);
                out.push((x.0, j));
            }
            let r = Json::Object(out);
            assert(r.doc()->Object_0 =~= whole->Object_0);
            r
        },
    }
}

/// Reads a JSON document.
pub fn parse_json(text: &str) -> (r: Option<Json>)
    ensures
        match r {
            Some(j) => json_doc(text@) == Some(j.doc()),
            None => json_doc(text@) is None,
        },
{
    match parse_value(text) {
        Some(v) => Some(tree_of(v)),
        None => None,
    }
}

/// A search for a member finds the first of that name at or after the start, if there is one.
proof fn lemma_position(members: Seq<(Seq<char>, Doc)>, key: Seq<char>, i: int)
    requires
        0 <= i <= members.len(),
    ensures
        Doc::position(members, key, i) matches Some(p) ==> i <= p < members.len() && members[p].0 == key
            && forall|k: int| i <= k < p ==> (#[trigger] members[k]).0 != key,
        Doc::position(members, key, i) is None ==> forall|k: int|
            i <= k < members.len() ==> (#[trigger] members[k]).0 != key,
    decreases members.len() - i,
{
    if i < members.len() && members[i].0 != key {
        lemma_position(members, key, i + 1);
    }
}

/// A member is found by its name, whatever else the object holds: what is found under a name
/// stands under that name, it is the first that does, and nothing is found only where nothing
/// stands under it. What is no object has no members.
pub proof fn law_members_by_name(d: Doc, key: Seq<char>)
    ensures
        d matches Doc::Object(members) ==> {
            &&& d.get(key) is Some <==> exists|k: int|
                0 <= k < members.len() && (#[trigger] members[k]).0 == key
            &&& d.get(key) matches Some(v) ==> exists|k: int|
                0 <= k < members.len() && #[trigger] members[k] == (key, v) && forall|j: int|
                    0 <= j < k ==> (#[trigger] members[j]).0 != key
        },
        !(d is Object) ==> d.get(key) is None,
{
    if let Doc::Object(members) = d {
        lemma_position(members, key, 0);
        if d.get(key) is Some {
            let p = Doc::position(members, key, 0)->0;
            assert(members[p] == (key, d.get(key)->0));
        }
    }
}

/// A member is read as what it is: as a text, an integer or a number only where it is one.
pub proof fn law_members_by_kind(d: Doc, key: Seq<char>, s: Seq<char>, n: i64, x: Real)
    ensures
        d.text_at(key) == Some(s) <==> d.get(key) == Some(Doc::Text(s)),
        d.integer_at(key) == Some(n) <==> (d.get(key) matches Some(Doc::Number(i, _)) && i == Some(n)),
        d.number_at(key) == Some(x) <==> (d.get(key) matches Some(Doc::Number(_, y)) && y == Some(x)),
{
}

/// The content of a document is that of its parts, level by level.
pub proof fn law_content(s: String, i: Option<i64>, x: Option<Real>, m: Vec<(String, Json)>, k: int)
    ensures
        Json::Text(s).doc() == Doc::Text(s@),
        Json::Number(i, x).doc() == Doc::Number(i, x),
        Json::Null.doc() == Doc::Null,
        Json::Object(m).doc() is Object,
        Json::Object(m).doc()->Object_0.len() == m@.len(),
        0 <= k < m@.len() ==> Json::Object(m).doc()->Object_0[k] == (m@[k].0@, m@[k].1.doc()),
{
}

/// The content of a list is that of its items, in order.
pub proof fn law_list_content(a: Vec<Json>, k: int)
    requires
        0 <= k < a@.len(),
    ensures
        Json::Array(a).doc() matches Doc::Array(items) && items.len() == a@.len() && items[k]
            == a@[k].doc(),
{
}

} // verus!

//! JSON documents as plain values. The text is read by serde_json; looking
//! things up in a document is done here.

use crate::text::same;
use vstd::prelude::*;

verus! {

/// A JSON document.
pub enum Json {
    Null,
    Bool(bool),
    /// A number, where it is a whole one that fits 64 unsigned bits.
    Number(Option<u64>),
    Text(String),
    List(Vec<Json>),
    Object(Vec<(String, Json)>),
}

/// What a document says.
pub enum Tree {
    Null,
    Bool(bool),
    Number(Option<u64>),
    Text(Seq<char>),
    List(Seq<Tree>),
    Object(Seq<(Seq<char>, Tree)>),
}

impl Json {
    pub open spec fn tree(self) -> Tree
        decreases self,
    {
        match self {
            Json::Null => Tree::Null,
            Json::Bool(b) => Tree::Bool(b),
            Json::Number(n) => Tree::Number(n),
            Json::Text(s) => Tree::Text(s@),
            Json::List(v) => Tree::List(
                Seq::new(
                    v@.len(),
                    |i: int|
                        if 0 <= i < v@.len() {
                            v@[i].tree()
                        } else {
                            Tree::Null
                        },
                ),
            ),
            Json::Object(v) => Tree::Object(
                Seq::new(
                    v@.len(),
                    |i: int|
                        if 0 <= i < v@.len() {
                            (v@[i].0@, v@[i].1.tree())
                        } else {
                            (Seq::empty(), Tree::Null)
                        },
                ),
            ),
        }
    }
}

/// `serde_json::Value`, a document as serde_json holds it.
#[verifier::external_type_specification]
#[verifier::external_body]
pub struct ExValue(serde_json::Value);

/// What a `serde_json::Value` holds.
pub uninterp spec fn json_held(v: serde_json::Value) -> Tree;

/// What `serde_json::from_slice` makes of a text: the document, or nothing where
/// the text is not JSON.
pub uninterp spec fn json_text(text: Seq<u8>) -> Option<Tree>;

/// `serde_json::from_slice::<Value>`: parses a whole text; whether it is JSON,
/// and which document it then is, depends on the text alone.
#[verifier::external_body]
fn value_of(text: &[u8]) -> (r: Option<serde_json::Value>)
    ensures
        r is Some <==> json_text(text@) is Some,
        r matches Some(v) ==> json_text(text@) == Some(json_held(v)),
{
    serde_json::from_slice::<serde_json::Value>(text).ok()
}

/// The variants of `serde_json::Value`, opened one level.
enum Opened {
    Null,
    Bool(bool),
    Number(Option<u64>),
    Text(String),
    List(Vec<serde_json::Value>),
    Object(Vec<(String, serde_json::Value)>),
}

spec fn held_list(v: Seq<serde_json::Value>) -> Seq<Tree> {
    v.map_values(|x: serde_json::Value| json_held(x))
}

spec fn held_members(v: Seq<(String, serde_json::Value)>) -> Seq<(Seq<char>, Tree)> {
    v.map_values(|m: (String, serde_json::Value)| (m.0@, json_held(m.1)))
}

/// The variants of `serde_json::Value`, one for one; of a number, what
/// `Number::as_u64` says; of an object, the members of the map in its own order.
#[verifier::external_body]
fn opened(v: serde_json::Value) -> (r: Opened)
    ensures
        json_held(v) == (match r {
            Opened::Null => Tree::Null,
            Opened::Bool(b) => Tree::Bool(b),
            Opened::Number(n) => Tree::Number(n),
            Opened::Text(s) => Tree::Text(s@),
            Opened::List(a) => Tree::List(held_list(a@)),
            Opened::Object(m) => Tree::Object(held_members(m@)),
        }),
{
    match v {
        serde_json::Value::Null => Opened::Null,
        serde_json::Value::Bool(b) => Opened::Bool(b),
        serde_json::Value::Number(n) => Opened::Number(n.as_u64()),
        serde_json::Value::String(s) => Opened::Text(s),
        serde_json::Value::Array(a) => Opened::List(a),
        serde_json::Value::Object(m) => Opened::Object(m.into_iter().collect()),
    }
}

/// A document as plain values.
fn plain(v: serde_json::Value) -> (r: Json)
    ensures
        r.tree() == json_held(v),
    decreases json_held(v),
{
    match opened(v) {
        Opened::Null => Json::Null,
        Opened::Bool(b) => Json::Bool(b),
        Opened::Number(n) => Json::Number(n),
        Opened::Text(s) => Json::Text(s),
        Opened::List(a) => {
            let mut rest = a;
            let mut out: Vec<Json> = Vec::new();
            let n = rest.len();
            let ghost want = held_list(a@);
            while rest.len() > 0
                invariant
                    json_held(v) == Tree::List(want),
                    want == held_list(a@),
                    n == a@.len(),
                    rest@.len() + out@.len() == n,
                    rest@ == a@.take(rest@.len() as int),
                    forall|k: int|
                        0 <= k < out@.len() ==> (#[trigger] out@[k]).tree() == want[n - 1 - k],
                decreases rest@.len(),
            {
                let ghost at = rest@.len() - 1;
                if let Some(x) = rest.pop() {
                    assert(json_held(x) == want[at]);
                    proof {
                        let t = json_held(v);
                        assert(decreases_to!(t => t->List_0));
                        assert(decreases_to!(want => want[at]));
                    }
                    out.push(plain(x));
                    assert(rest@ =~= a@.take(rest@.len() as int));
                }
            }
            let list = turned(out);
            assert(Json::List(list).tree()->List_0 =~= want);
            Json::List(list)
        },
        Opened::Object(m) => {
            let mut rest = m;
            let mut out: Vec<(String, Json)> = Vec::new();
            let n = rest.len();
            let ghost want = held_members(m@);
            while rest.len() > 0
                invariant
                    json_held(v) == Tree::Object(want),
                    want == held_members(m@),
                    n == m@.len(),
                    rest@.len() + out@.len() == n,
                    rest@ == m@.take(rest@.len() as int),
                    forall|k: int|
                        0 <= k < out@.len() ==> ((#[trigger] out@[k]).0@, out@[k].1.tree())
                            == want[n - 1 - k],
                decreases rest@.len(),
            {
                let ghost at = rest@.len() - 1;
                if let Some((key, x)) = rest.pop() {
                    assert((key@, json_held(x)) == want[at]);
                    proof {
                        let t = json_held(v);
                        assert(decreases_to!(t => t->Object_0));
                        assert(decreases_to!(want => want[at]));
                        assert(decreases_to!(want[at] => want[at].1));
                    }
                    out.push((key, plain(x)));
                    assert(rest@ =~= m@.take(rest@.len() as int));
                }
            }
            let list = turned(out);
            assert(Json::Object(list).tree()->Object_0 =~= want);
            Json::Object(list)
        },
    }
}

/// The same from the back.
fn turned<T>(v: Vec<T>) -> (r: Vec<T>)
    ensures
        r@ == v@.reverse(),
{
    let mut rest = v;
    let mut r: Vec<T> = Vec::new();
    let n = rest.len();
    while rest.len() > 0
        invariant
            n == v@.len(),
            rest@.len() + r@.len() == n,
            rest@ == v@.take(rest@.len() as int),
            forall|k: int| 0 <= k < r@.len() ==> #[trigger] r@[k] == v@[n - 1 - k],
        decreases rest@.len(),
    {
        if let Some(x) = rest.pop() {
            r.push(x);
            assert(rest@ =~= v@.take(rest@.len() as int));
        }
    }
    assert(r@ =~= v@.reverse());
    r
}

/// Read a JSON text.
pub fn parse(text: &[u8]) -> (r: Option<Json>)
    ensures
        r is Some <==> json_text(text@) is Some,
        r matches Some(j) ==> json_text(text@) == Some(j.tree()),
{
    match value_of(text) {
        Some(v) => Some(plain(v)),
        None => None,
    }
}

// ------------------------------------------------------------------- lookup

/// The member called `key`; null where there is none.
pub open spec fn member_of(t: Tree, key: Seq<char>) -> Tree {
    match t {
        Tree::Object(m) => first_member(m, key),
        _ => Tree::Null,
    }
}

pub open spec fn first_member(m: Seq<(Seq<char>, Tree)>, key: Seq<char>) -> Tree
    decreases m.len(),
{
    if m.len() == 0 {
        Tree::Null
    } else if m[0].0 == key {
        m[0].1
    } else {
        first_member(m.skip(1), key)
    }
}

/// The entries of a list; nothing else has any.
pub open spec fn entries_of(t: Tree) -> Seq<Tree> {
    match t {
        Tree::List(s) => s,
        _ => Seq::empty(),
    }
}

pub open spec fn text_in(t: Tree) -> Option<Seq<char>> {
    match t {
        Tree::Text(s) => Some(s),
        _ => None,
    }
}

pub open spec fn number_in(t: Tree) -> Option<u64> {
    match t {
        Tree::Number(n) => n,
        _ => None,
    }
}

pub open spec fn tree_of(j: Option<&Json>) -> Tree {
    match j {
        Some(x) => x.tree(),
        None => Tree::Null,
    }
}

pub fn member<'a>(j: &'a Json, key: &str) -> (r: Option<&'a Json>)
    ensures
        tree_of(r) == member_of(j.tree(), key@),
{
    match j {
        Json::Object(v) => {
            let n = v.len();
            let mut i: usize = 0;
            let ghost m = j.tree()->Object_0;
            assert(m.skip(0) =~= m);
            while i < n
                invariant
                    i <= n,
                    n == v@.len(),
                    m.len() == n,
                    j.tree() == Tree::Object(m),
                    forall|k: int|
                        0 <= k < n ==> #[trigger] m[k] == (v@[k].0@, v@[k].1.tree()),
                    first_member(m, key@) == first_member(m.skip(i as int), key@),
                decreases n - i,
            {
                proof {
                    assert(m.skip(i as int)[0] == m[i as int]);
                    assert(m.skip(i as int).skip(1) =~= m.skip(i + 1));
                }
                if same(v[i].0.as_str(), key) {
                    return Some(&v[i].1);
                }
                i += 1;
            }
            None
        },
        _ => None,
    }
}

/// The text that a member is, where it is one.
pub fn text_member(j: &Json, key: &str) -> (r: Option<String>)
    ensures
        match (r, text_in(member_of(j.tree(), key@))) {
            (Some(s), Some(t)) => s@ == t,
            (None, None) => true,
            _ => false,
        },
{
    match member(j, key) {
        Some(Json::Text(s)) => Some(s.clone()),
        _ => None,
    }
}

pub fn number_member(j: &Json, key: &str) -> (r: Option<u64>)
    ensures
        r == number_in(member_of(j.tree(), key@)),
{
    match member(j, key) {
        Some(Json::Number(n)) => *n,
        _ => None,
    }
}

} // verus!

//! JSON values, the form in which syntax crosses into and out of macro code.
use vstd::prelude::*;
use crate::ast::{JsNumber, SpecNumber};

verus! {

pub enum JsonValue {
    Null,
    Bool(bool),
    Number(JsNumber),
    Str(String),
    Array(Vec<JsonValue>),
    Object(Vec<Member>),
}

/// One `key: value` entry of an object.
pub struct Member {
    pub key: String,
    pub value: JsonValue,
}

pub enum SpecJson {
    Null,
    Bool(bool),
    Number(SpecNumber),
    Str(Seq<char>),
    Array(Seq<SpecJson>),
    Object(Seq<(Seq<char>, SpecJson)>),
}

pub open spec fn view_json(v: JsonValue) -> SpecJson
    decreases v,
{
    match v {
        JsonValue::Null => SpecJson::Null,
        JsonValue::Bool(b) => SpecJson::Bool(b),
        JsonValue::Number(n) => SpecJson::Number(n@),
        JsonValue::Str(s) => SpecJson::Str(s@),
        JsonValue::Array(a) => SpecJson::Array(view_jsons(a@)),
        JsonValue::Object(ms) => SpecJson::Object(view_members(ms@)),
    }
}

pub open spec fn view_jsons(s: Seq<JsonValue>) -> Seq<SpecJson>
    decreases s,
{
    if s.len() == 0 {
        Seq::empty()
    } else {
        view_jsons(s.drop_last()).push(view_json(s.last()))
    }
}

pub open spec fn view_members(s: Seq<Member>) -> Seq<(Seq<char>, SpecJson)>
    decreases s,
{
    if s.len() == 0 {
        Seq::empty()
    } else {
        view_members(s.drop_last()).push((s.last().key@, view_json(s.last().value)))
    }
}

impl View for JsonValue {
    type V = SpecJson;

    open spec fn view(&self) -> SpecJson {
        view_json(*self)
    }
}

pub open spec fn jsons_view(v: Vec<JsonValue>) -> Seq<SpecJson> {
    view_jsons(v@)
}

pub proof fn lemma_view_jsons(s: Seq<JsonValue>)
    ensures
        view_jsons(s).len() == s.len(),
        forall|i: int| 0 <= i < s.len() ==> #[trigger] view_jsons(s)[i] == view_json(s[i]),
    decreases s.len(),
{
    if s.len() > 0 {
        lemma_view_jsons(s.drop_last());
    }
}

pub proof fn lemma_view_members(s: Seq<Member>)
    ensures
        view_members(s).len() == s.len(),
        forall|i: int| 0 <= i < s.len() ==> #[trigger] view_members(s)[i] == (s[i].key@, view_json(s[i].value)),
    decreases s.len(),
{
    if s.len() > 0 {
        lemma_view_members(s.drop_last());
    }
}

/// The position of the first member named `key`.
pub open spec fn member_index(ms: Seq<(Seq<char>, SpecJson)>, key: Seq<char>) -> Option<int>
    decreases ms.len(),
{
    if ms.len() == 0 {
        None
    } else {
        match member_index(ms.drop_last(), key) {
            Some(i) => Some(i),
            None => if ms.last().0 == key { Some(ms.len() - 1) } else { None },
        }
    }
}

pub proof fn lemma_member_index(ms: Seq<(Seq<char>, SpecJson)>, key: Seq<char>)
    ensures
        member_index(ms, key) matches Some(i) ==> 0 <= i < ms.len() && ms[i].0 == key
            && forall|j: int| 0 <= j < i ==> ms[j].0 != key,
        member_index(ms, key) is None ==> forall|j: int| 0 <= j < ms.len() ==> ms[j].0 != key,
    decreases ms.len(),
{
    if ms.len() > 0 {
        let d = ms.drop_last();
        lemma_member_index(d, key);
        assert(forall|j: int| 0 <= j < ms.len() - 1 ==> #[trigger] d[j] == ms[j]);
        match member_index(d, key) {
            Some(i) => {
                assert(member_index(ms, key) == Some(i));
                assert(d[i] == ms[i]);
                assert forall|j: int| 0 <= j < i implies ms[j].0 != key by {
                    assert(d[j] == ms[j]);
                }
            },
            None => {
                if ms.last().0 == key {
                    assert(member_index(ms, key) == Some(ms.len() - 1));
                    assert forall|j: int| 0 <= j < ms.len() - 1 implies ms[j].0 != key by {
                        assert(d[j] == ms[j]);
                    }
                } else {
                    assert(member_index(ms, key) is None);
                    assert forall|j: int| 0 <= j < ms.len() implies ms[j].0 != key by {
                        if j < ms.len() - 1 {
                            assert(d[j] == ms[j]);
                        }
                    }
                }
            },
        }
    }
}

/// `value.get(key)`: the member named `key` of an object.
pub open spec fn jget(v: SpecJson, key: Seq<char>) -> Option<SpecJson> {
    match v {
        SpecJson::Object(ms) => match member_index(ms, key) {
            Some(i) => Some(ms[i].1),
            None => None,
        },
        _ => None,
    }
}

pub proof fn lemma_jget_decreases(v: SpecJson, key: Seq<char>)
    ensures
        jget(v, key) matches Some(x) ==> decreases_to!(v => x),
{
    if let SpecJson::Object(ms) = v {
        lemma_member_index(ms, key);
        if let Some(i) = member_index(ms, key) {
            assert(decreases_to!(v => ms));
            assert(decreases_to!(ms => ms[i]));
            assert(decreases_to!(ms[i] => ms[i].1));
        }
    }
}

pub open spec fn jas_str(v: Option<SpecJson>) -> Option<Seq<char>> {
    match v {
        Some(SpecJson::Str(s)) => Some(s),
        _ => None,
    }
}

pub open spec fn jas_array(v: Option<SpecJson>) -> Option<Seq<SpecJson>> {
    match v {
        Some(SpecJson::Array(a)) => Some(a),
        _ => None,
    }
}

pub open spec fn jas_bool(v: Option<SpecJson>) -> Option<bool> {
    match v {
        Some(SpecJson::Bool(b)) => Some(b),
        _ => None,
    }
}

/// The string at `v[key]`, if there is one.
pub open spec fn jget_str(v: SpecJson, key: Seq<char>) -> Option<Seq<char>> {
    jas_str(jget(v, key))
}

pub open spec fn opt_json(r: Option<&JsonValue>) -> Option<SpecJson> {
    match r {
        Some(x) => Some(x@),
        None => None,
    }
}

/// `value.get(key)`.
pub fn get<'a>(v: &'a JsonValue, key: &str) -> (r: Option<&'a JsonValue>)
    ensures
        opt_json(r) == jget(v@, key@),
        r matches Some(x) ==> decreases_to!(*v => *x),
{
    match v {
        JsonValue::Object(ms) => {
            let ghost sms = view_members(ms@);
            proof {
                lemma_view_members(ms@);
                lemma_member_index(sms, key@);
            }
            let mut i: usize = 0;
            assert(decreases_to!(*v => *ms));
            while i < ms.len()
                invariant
                    i <= ms.len(),
                    decreases_to!(*v => *ms),
                    *v == JsonValue::Object(*ms),
                    sms == view_members(ms@),
                    sms.len() == ms.len(),
                    forall|j: int| 0 <= j < ms.len() ==> #[trigger] sms[j] == (ms@[j].key@, view_json(ms@[j].value)),
                    forall|j: int| 0 <= j < i ==> sms[j].0 != key@,
                    member_index(sms, key@) matches Some(k) ==> 0 <= k < sms.len() && sms[k].0 == key@
                        && forall|j: int| 0 <= j < k ==> sms[j].0 != key@,
                    member_index(sms, key@) is None ==> forall|j: int| 0 <= j < sms.len() ==> sms[j].0 != key@,
                decreases ms.len() - i,
            {
                if ms[i].key == String::from_str(key) {
                    proof {
                        assert(sms[i as int].0 == key@);
                        assert(member_index(sms, key@) == Some(i as int));
                        assert(decreases_to!(*ms => ms@));
                        assert(decreases_to!(ms@ => ms@[i as int]));
                        assert(decreases_to!(ms@[i as int] => ms@[i as int].value));
                    }
                    return Some(&ms[i].value);
                }
                i = i + 1;
            }
            None
        },
        _ => None,
    }
}

/// `value.get(key).and_then(|v| v.as_str())`.
pub fn get_str<'a>(v: &'a JsonValue, key: &str) -> (r: Option<&'a String>)
    ensures
        match r {
            Some(s) => jget_str(v@, key@) == Some(s@),
            None => jget_str(v@, key@) is None,
        },
{
    match get(v, key) {
        Some(JsonValue::Str(s)) => Some(s),
        _ => None,
    }
}

/// A deep copy of a JSON value.
pub fn copy_json(v: &JsonValue) -> (r: JsonValue)
    ensures
        r@ == v@,
    decreases v,
{
    match v {
        JsonValue::Null => JsonValue::Null,
        JsonValue::Bool(b) => JsonValue::Bool(*b),
        JsonValue::Number(n) => JsonValue::Number(JsNumber { bits: n.bits, text: n.text.clone() }),
        JsonValue::Str(s) => JsonValue::Str(s.clone()),
        JsonValue::Array(a) => JsonValue::Array(copy_jsons(a)),
        JsonValue::Object(ms) => {
            let mut out: Vec<Member> = Vec::new();
            let mut i: usize = 0;
            proof {
                lemma_view_members(ms@);
            }
            assert(decreases_to!(*v => *ms));
            while i < ms.len()
                invariant
                    i <= ms.len(),
                    decreases_to!(*v => *ms),
                    view_members(ms@).len() == ms.len(),
                    forall|j: int| 0 <= j < ms.len() ==> #[trigger] view_members(ms@)[j] == (ms@[j].key@, view_json(ms@[j].value)),
                    view_members(out@) == view_members(ms@).take(i as int),
                decreases ms.len() - i,
            {
                proof {
                    assert(decreases_to!(*ms => ms@));
                    assert(decreases_to!(ms@ => ms@[i as int]));
                    assert(decreases_to!(ms@[i as int] => ms@[i as int].value));
                }
                let value = copy_json(&ms[i].value);
                let m = Member { key: ms[i].key.clone(), value };
                let ghost before = out@;
                out.push(m);
                assert(out@.drop_last() =~= before);
                assert(view_members(ms@).take(i + 1) =~= view_members(ms@).take(i as int).push(view_members(ms@)[i as int]));
                i = i + 1;
            }
            assert(view_members(ms@).take(ms.len() as int) =~= view_members(ms@));
            JsonValue::Object(out)
        },
    }
}

/// A deep copy of a vector of JSON values.
pub fn copy_jsons(v: &Vec<JsonValue>) -> (r: Vec<JsonValue>)
    ensures
        jsons_view(r) == jsons_view(*v),
    decreases v,
{
    let mut out: Vec<JsonValue> = Vec::new();
    let mut i: usize = 0;
    proof {
        lemma_view_jsons(v@);
    }
    while i < v.len()
        invariant
            i <= v.len(),
            view_jsons(v@).len() == v.len(),
            forall|j: int| 0 <= j < v.len() ==> #[trigger] view_jsons(v@)[j] == view_json(v@[j]),
            jsons_view(out) == view_jsons(v@).take(i as int),
        decreases v.len() - i,
    {
        let c = copy_json(&v[i]);
        let ghost before = out@;
        out.push(c);
        assert(out@.drop_last() =~= before);
        assert(view_jsons(v@).take(i + 1) =~= view_jsons(v@).take(i as int).push(view_json(v@[i as int])));
        i = i + 1;
    }
    assert(view_jsons(v@).take(v.len() as int) =~= view_jsons(v@));
    out
}

/// Appends a value to a vector of JSON values, with the view of the result.
pub fn push_json(v: &mut Vec<JsonValue>, x: JsonValue)
    ensures
        jsons_view(*final(v)) == jsons_view(*old(v)).push(x@),
{
    let ghost before = v@;
    v.push(x);
    assert(v@.drop_last() =~= before);
}

/// Appends a member to an object under construction, with the view of the result.
pub fn push_member(v: &mut Vec<Member>, key: &str, x: JsonValue)
    ensures
        view_members(final(v)@) == view_members(old(v)@).push((key@, x@)),
{
    let ghost before = v@;
    v.push(Member { key: String::from_str(key), value: x });
    assert(v@.drop_last() =~= before);
}

} // verus!

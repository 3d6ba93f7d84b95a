//! A JSON document as the decoders read it, and member lookup in an object.

use vstd::prelude::*;

verus! {

/// A JSON value. Numbers keep the text that the parser gave them, so that no
/// precision is lost and integers stay exact. An object is a list of members.
#[derive(Debug)]
pub enum Json {
    Null,
    Bool(bool),
    Number(String),
    Text(String),
    Array(Vec<Json>),
    Object(Vec<(String, Json)>),
}

/// The value of the first member named `key`, if there is one.
pub open spec fn member(members: Seq<(String, Json)>, key: Seq<char>) -> Option<Json>
    decreases members.len(),
{
    if members.len() == 0 {
        None
    } else if members[0].0@ == key {
        Some(members[0].1)
    } else {
        member(members.drop_first(), key)
    }
}

/// Index of the first member named `key`.
pub open spec fn is_first_index(members: Seq<(String, Json)>, key: Seq<char>, i: int) -> bool {
    &&& 0 <= i < members.len()
    &&& members[i].0@ == key
    &&& forall|j: int| 0 <= j < i ==> (#[trigger] members[j]).0@ != key
}

proof fn lemma_member_absent(members: Seq<(String, Json)>, key: Seq<char>)
    requires
        forall|j: int| 0 <= j < members.len() ==> (#[trigger] members[j]).0@ != key,
    ensures
        member(members, key) is None,
    decreases members.len(),
{
    if members.len() > 0 {
        assert(members[0].0@ != key);
        assert forall|j: int| 0 <= j < members.drop_first().len() implies (
        #[trigger] members.drop_first()[j]).0@ != key by {
            assert(members.drop_first()[j] == members[j + 1]);
        }
        lemma_member_absent(members.drop_first(), key);
    }
}

proof fn lemma_member_first(members: Seq<(String, Json)>, key: Seq<char>, i: int)
    requires
        is_first_index(members, key, i),
    ensures
        member(members, key) == Some(members[i].1),
        forall|k: Seq<char>| k != key ==> member(#[trigger] members.remove(i), k) == member(members, k),
    decreases members.len(),
{
    if i == 0 {
        assert(members.remove(0) =~= members.drop_first());
    } else {
        assert(members[0].0@ != key);
        let rest = members.drop_first();
        assert forall|j: int| 0 <= j < i - 1 implies (#[trigger] rest[j]).0@ != key by {
            assert(rest[j] == members[j + 1]);
        }
        lemma_member_first(rest, key, i - 1);
        assert forall|k: Seq<char>| k != key implies member(#[trigger] members.remove(i), k) == member(
            members,
            k,
        ) by {
            let removed = members.remove(i);
            assert(removed[0] == members[0]);
            assert(removed.drop_first() =~= rest.remove(i - 1));
            assert(member(rest.remove(i - 1), k) == member(rest, k));
            if removed[0].0@ != k {
                assert(member(removed, k) == member(removed.drop_first(), k));
                assert(member(members, k) == member(rest, k));
            }
        }
    }
}

/// Takes out of `members` the value of the first member named `key`; the
/// other names keep their values.
pub fn take_member(members: &mut Vec<(String, Json)>, key: &String) -> (r: Option<Json>)
    ensures
        r == member(old(members)@, key@),
        forall|k: Seq<char>| k != key@ ==> member(final(members)@, k) == member(old(members)@, k),
{
    let n = members.len();
    let mut i: usize = 0;
    while i < n
        invariant
            members@ == old(members)@,
            n == members@.len(),
            i <= n,
            forall|j: int| 0 <= j < i ==> (#[trigger] members@[j]).0@ != key@,
        decreases n - i,
    {
        if members[i].0 == *key {
            let ghost before = members@;
            proof {
                lemma_member_first(before, key@, i as int);
            }
            let (_, v) = members.remove(i);
            assert(members@ == before.remove(i as int));
            return Some(v);
        }
        i = i + 1;
    }
    proof {
        lemma_member_absent(members@, key@);
    }
    None
}

/// What serde_json makes of a text: the document, or `None` where the text is
/// not JSON. The members of a parsed object come sorted by name, and a name
/// given twice keeps its last value.
pub uninterp spec fn json_parse(text: Seq<char>) -> Option<Json>;

/// Relies on serde_json::from_str into serde_json::Value: the text is parsed
/// as one JSON document, and the outcome depends on the text alone.
#[verifier::external_body]
pub fn parse_json(text: &str) -> (r: Option<Json>)
    ensures
        r == json_parse(text@),
{
    serde_json::from_str::<serde_json::Value>(text).ok().map(json_of_value)
}

/// serde_json's document tree, which `json_of_value` reads.
#[verifier::external_type_specification]
#[verifier::external_body]
pub struct ExValue(serde_json::Value);

/// Converts a tree that serde_json built, node for node; called only by the
/// body of `parse_json`.
#[verifier::external_body]
fn json_of_value(v: serde_json::Value) -> Json {
    match v {
        serde_json::Value::Null => Json::Null,
        serde_json::Value::Bool(b) => Json::Bool(b),
        serde_json::Value::Number(n) => Json::Number(n.to_string()),
        serde_json::Value::String(s) => Json::Text(s),
        serde_json::Value::Array(a) => Json::Array(a.into_iter().map(json_of_value).collect()),
        serde_json::Value::Object(m) => Json::Object(
            m.into_iter().map(|(k, x)| (k, json_of_value(x))).collect(),
        ),
    }
}

} // verus!

//! JSON documents as plain values, and the reader that produces them.

use vstd::prelude::*;

verus! {

/// A JSON value. A number keeps what the query language reads of it: its
/// value as an unsigned 64-bit integer, where it is one.
#[derive(Debug, PartialEq, Eq)]
pub enum Json {
    Null,
    Bool(bool),
    Number(Option<u64>),
    Text(String),
    Array(Vec<Json>),
    Object(Vec<Member>),
}

/// One entry of a JSON object.
#[derive(Debug, PartialEq, Eq)]
pub struct Member {
    pub key: String,
    pub value: Json,
}

/// Declares `serde_json::Value`, which only the reader below handles.
#[verifier::external_type_specification]
#[verifier::external_body]
pub struct ExValue(serde_json::Value);

/// The document that a text reads as, or `None` where the text is not JSON.
pub uninterp spec fn json_document(text: Seq<char>) -> Option<Json>;

/// Reads `text` with `serde_json::from_str`.
///
/// Trusted: what comes back depends on the text alone. Nothing is claimed
/// about which document a text gives.
#[verifier::external_body]
pub(crate) fn read_document(text: &str) -> (r: Option<Json>)
    ensures
        r == json_document(text@),
{
    match serde_json::from_str::<serde_json::Value>(text) {
        Ok(value) => Some(json_of_value(&value)),
        Err(_) => None,
    }
}

/// Turns a `serde_json::Value` into a [`Json`], variant by variant; the
/// entries of an object keep the order in which `serde_json` walks them, and
/// a number keeps what `Number::as_u64` gives.
#[verifier::external_body]
fn json_of_value(value: &serde_json::Value) -> Json {
    match value {
        serde_json::Value::Null => Json::Null,
        serde_json::Value::Bool(b) => Json::Bool(*b),
        serde_json::Value::Number(n) => Json::Number(n.as_u64()),
        serde_json::Value::String(s) => Json::Text(s.clone()),
        serde_json::Value::Array(items) => Json::Array(items.iter().map(json_of_value).collect()),
        serde_json::Value::Object(map) => Json::Object(
            map.iter().map(|(k, v)| Member { key: k.clone(), value: json_of_value(v) }).collect(),
        ),
    }
}

/// The index of the first entry under `key`, or -1 where there is none.
pub open spec fn member_index(members: Seq<Member>, key: Seq<char>) -> int
    decreases members.len(),
{
    if members.len() == 0 {
        -1
    } else {
        let before = member_index(members.drop_last(), key);
        if before >= 0 {
            before
        } else if members.last().key@ == key {
            members.len() - 1
        } else {
            -1
        }
    }
}

/// `member_index` is below the length, names an entry under `key` with none
/// before it, and is -1 only where no entry is under `key`.
pub proof fn lemma_member_index(members: Seq<Member>, key: Seq<char>)
    ensures
        -1 <= member_index(members, key) < members.len(),
        member_index(members, key) >= 0 ==> members[member_index(members, key)].key@ == key,
        forall|j: int|
            0 <= j < members.len() && (j < member_index(members, key) || member_index(members, key) < 0)
                ==> (#[trigger] members[j]).key@ != key,
    decreases members.len(),
{
    if members.len() > 0 {
        let front = members.drop_last();
        lemma_member_index(front, key);
        assert forall|j: int|
            0 <= j < members.len() && (j < member_index(members, key) || member_index(members, key) < 0)
            implies (#[trigger] members[j]).key@ != key by {
            if j < front.len() {
                assert(front[j] == members[j]);
            }
        }
        if member_index(front, key) >= 0 {
            assert(front[member_index(front, key)] == members[member_index(front, key)]);
        }
    }
}

/// An entry under `key` with none before it is the one that `member_index`
/// names.
pub proof fn lemma_member_index_first(members: Seq<Member>, key: Seq<char>, i: int)
    requires
        0 <= i < members.len(),
        members[i].key@ == key,
        forall|j: int| 0 <= j < i ==> (#[trigger] members[j]).key@ != key,
    ensures
        member_index(members, key) == i,
{
    lemma_member_index(members, key);
}

impl Json {
    /// The entries of an object; no entries for any other value.
    pub open spec fn members(self) -> Seq<Member> {
        match self {
            Json::Object(m) => m@,
            _ => Seq::empty(),
        }
    }

    /// The value under `key` of an object.
    pub open spec fn lookup(self, key: Seq<char>) -> Option<Json> {
        let i = member_index(self.members(), key);
        if 0 <= i < self.members().len() {
            Some(self.members()[i].value)
        } else {
            None
        }
    }

    /// The text of a string value.
    pub open spec fn text(self) -> Option<Seq<char>> {
        match self {
            Json::Text(s) => Some(s@),
            _ => None,
        }
    }

    /// The unsigned integer that a number is, where it is one.
    pub open spec fn unsigned(self) -> Option<u64> {
        match self {
            Json::Number(n) => n,
            _ => None,
        }
    }

    /// The truth value of a boolean.
    pub open spec fn boolean(self) -> Option<bool> {
        match self {
            Json::Bool(b) => Some(b),
            _ => None,
        }
    }

    /// The value under `key`, where `self` is an object that has one.
    pub fn get(&self, key: &str) -> (r: Option<&Json>)
        ensures
            match r {
                Some(found) => self.lookup(key@) == Some(*found),
                None => self.lookup(key@) is None,
            },
    {
        match self {
            Json::Object(members) => {
                let wanted = key.to_owned();
                let mut i: usize = 0;
                while i < members.len()
                    invariant
                        i <= members.len(),
                        self.members() == members@,
                        wanted@ == key@,
                        forall|j: int| 0 <= j < i ==> (#[trigger] members@[j]).key@ != key@,
                    decreases members.len() - i,
                {
                    if members[i].key == wanted {
                        proof {
                            lemma_member_index_first(members@, key@, i as int);
                        }
                        return Some(&members[i].value);
                    }
                    i += 1;
                }
                proof {
                    lemma_member_index(members@, key@);
                }
                None
            },
            _ => None,
        }
    }

    /// The entries, where `self` is an object.
    pub fn as_object(&self) -> (r: Option<&Vec<Member>>)
        ensures
            match r {
                Some(m) => *self == Json::Object(*m),
                None => !(self is Object),
            },
    {
        match self {
            Json::Object(members) => Some(members),
            _ => None,
        }
    }

    /// The items, where `self` is an array.
    pub fn as_array(&self) -> (r: Option<&Vec<Json>>)
        ensures
            match r {
                Some(items) => *self == Json::Array(*items),
                None => !(self is Array),
            },
    {
        match self {
            Json::Array(items) => Some(items),
            _ => None,
        }
    }

    /// The text, where `self` is a string.
    pub fn as_str(&self) -> (r: Option<&str>)
        ensures
            match r {
                Some(s) => self.text() == Some(s@),
                None => self.text() is None,
            },
    {
        match self {
            Json::Text(s) => Some(s.as_str()),
            _ => None,
        }
    }

    /// The number, where `self` is an unsigned integer of 64 bits.
    pub fn as_u64(&self) -> (r: Option<u64>)
        ensures
            r == self.unsigned(),
    {
        match self {
            Json::Number(n) => *n,
            _ => None,
        }
    }

    /// The truth value, where `self` is a boolean.
    pub fn as_bool(&self) -> (r: Option<bool>)
        ensures
            r == self.boolean(),
    {
        match self {
            Json::Bool(b) => Some(*b),
            _ => None,
        }
    }
}

} // verus!

//! JSON values, as tool definitions are made of them.

use crate::text::str_eq;
use vstd::prelude::*;

verus! {

/// A JSON number: a natural number, a negative integer, or a floating-point
/// number by its IEEE 754 bits.
#[derive(Debug, Clone, Copy, PartialEq, Eq, Structural)]
pub enum JsonNumber {
    PosInt(u64),
    NegInt(i64),
    Float(u64),
}

/// A JSON value. The members of an object are kept in order; of several with
/// one name, the first counts.
#[derive(Debug, PartialEq, Eq)]
pub enum Json {
    Null,
    Bool(bool),
    Number(JsonNumber),
    Str(String),
    Array(Vec<Json>),
    Object(Vec<(String, Json)>),
}

pub enum JsonView {
    Null,
    Bool(bool),
    Number(JsonNumber),
    Str(Seq<char>),
    Array(Seq<JsonView>),
    Object(Seq<(Seq<char>, JsonView)>),
}

impl Json {
    /// The value, down to its leaves.
    pub open spec fn tree(self) -> JsonView
        decreases self,
    {
        match self {
            Json::Null => JsonView::Null,
            Json::Bool(b) => JsonView::Bool(b),
            Json::Number(n) => JsonView::Number(n),
            Json::Str(s) => JsonView::Str(s@),
            Json::Array(items) => JsonView::Array(
                Seq::new(
                    items@.len(),
                    |i: int|
                        if 0 <= i < items@.len() {
                            items@[i].tree()
                        } else {
                            JsonView::Null
                        },
                ),
            ),
            Json::Object(members) => JsonView::Object(
                Seq::new(
                    members@.len(),
                    |i: int|
                        if 0 <= i < members@.len() {
                            (members@[i].0@, members@[i].1.tree())
                        } else {
                            (Seq::empty(), JsonView::Null)
                        },
                ),
            ),
        }
    }
}

impl JsonView {
    /// The value of the first of several members with a name.
    pub open spec fn lookup(members: Seq<(Seq<char>, JsonView)>, name: Seq<char>) -> Option<JsonView>
        decreases members.len(),
    {
        if members.len() == 0 {
            None
        } else if members[0].0 == name {
            Some(members[0].1)
        } else {
            JsonView::lookup(members.skip(1), name)
        }
    }

    /// Whether no object in the value has two members of one name.
    pub open spec fn has_distinct_names(self) -> bool
        decreases self,
    {
        match self {
            JsonView::Array(items) => forall|i: int|
                0 <= i < items.len() ==> (#[trigger] items[i]).has_distinct_names(),
            JsonView::Object(members) => {
                &&& forall|i: int, j: int|
                    0 <= i < j < members.len() ==> (#[trigger] members[i]).0 != (
                    #[trigger] members[j]).0
                &&& forall|i: int|
                    0 <= i < members.len() ==> (#[trigger] members[i]).1.has_distinct_names()
            },
            _ => true,
        }
    }

    /// The member of an object with a name.
    pub open spec fn get(self, name: Seq<char>) -> Option<JsonView> {
        match self {
            JsonView::Object(members) => JsonView::lookup(members, name),
            _ => None,
        }
    }

    /// The member of an object with a name, if it is a string.
    pub open spec fn get_str(self, name: Seq<char>) -> Option<Seq<char>> {
        match self.get(name) {
            Some(JsonView::Str(s)) => Some(s),
            _ => None,
        }
    }

    /// The member of an object with a name, if it is an array.
    pub open spec fn get_array(self, name: Seq<char>) -> Option<Seq<JsonView>> {
        match self.get(name) {
            Some(JsonView::Array(items)) => Some(items),
            _ => None,
        }
    }
}

impl DeepView for Json {
    type V = JsonView;

    open spec fn deep_view(&self) -> JsonView {
        self.tree()
    }
}

impl Clone for Json {
    fn clone(&self) -> (r: Self)
        ensures
            r.tree() == self.tree(),
        decreases self,
    {
        match self {
            Json::Null => Json::Null,
            Json::Bool(b) => Json::Bool(*b),
            Json::Number(n) => Json::Number(*n),
            Json::Str(s) => Json::Str(s.clone()),
            Json::Array(items) => {
                let mut copies: Vec<Json> = Vec::new();
                let mut i: usize = 0;
                while i < items.len()
                    invariant
                        i <= items@.len(),
                        decreases_to!(*self => *items),
                        copies@.len() == i,
                        forall|j: int| 0 <= j < i ==> (#[trigger] copies@[j]).tree()
                            == items@[j].tree(),
                    decreases items.len() - i,
                {
                    assert(decreases_to!(items@ => items@[i as int]));
                    copies.push(items[i].clone());
                    i = i + 1;
                }
                let r = Json::Array(copies);
                assert(r.tree()->Array_0 =~= self.tree()->Array_0);
                r
            },
            Json::Object(members) => {
                let mut copies: Vec<(String, Json)> = Vec::new();
                let mut i: usize = 0;
                while i < members.len()
                    invariant
                        i <= members@.len(),
                        decreases_to!(*self => *members),
                        copies@.len() == i,
                        forall|j: int| 0 <= j < i ==> (#[trigger] copies@[j]).1.tree()
                            == members@[j].1.tree(),
                        forall|j: int| 0 <= j < i ==> (#[trigger] copies@[j]).0@ == members@[j].0@,
                    decreases members.len() - i,
                {
                    assert(decreases_to!(members@ => members@[i as int]));
                    let name = members[i].0.clone();
                    copies.push((name, members[i].1.clone()));
                    i = i + 1;
                }
                let r = Json::Object(copies);
                assert(r.tree()->Object_0 =~= self.tree()->Object_0);
                r
            },
        }
    }
}

impl Json {
    /// The member of an object with a name.
    pub fn get(&self, name: &str) -> (r: Option<&Json>)
        ensures
            match r {
                Some(value) => self.tree().get(name@) == Some(value.tree()),
                None => self.tree().get(name@) is None,
            },
    {
        match self {
            Json::Object(members) => {
                let ghost all = self.tree()->Object_0;
                assert(all.skip(0) =~= all);
                let mut i: usize = 0;
                while i < members.len()
                    invariant
                        i <= members@.len(),
                        all == self.tree()->Object_0,
                        *self == Json::Object(*members),
                        JsonView::lookup(all.skip(i as int), name@) == JsonView::lookup(all, name@),
                    decreases members.len() - i,
                {
                    assert(all.skip(i as int)[0] == (members@[i as int].0@, members@[i as int].1.tree()));
                    if str_eq(members[i].0.as_str(), name) {
                        return Some(&members[i].1);
                    }
                    assert(all.skip(i as int).skip(1) =~= all.skip(i + 1));
                    i = i + 1;
                }
                None
            },
            _ => None,
        }
    }

    /// The member of an object with a name, if it is a string.
    pub fn get_str(&self, name: &str) -> (r: Option<&str>)
        ensures
            r.deep_view() == self.tree().get_str(name@),
    {
        match self.get(name) {
            Some(Json::Str(s)) => Some(s.as_str()),
            _ => None,
        }
    }

    /// The member of an object with a name, if it is an array.
    pub fn get_array(&self, name: &str) -> (r: Option<&Vec<Json>>)
        ensures
            r.deep_view() == self.tree().get_array(name@),
    {
        match self.get(name) {
            Some(Json::Array(items)) => {
                assert(items.deep_view() =~= Json::Array(*items).tree()->Array_0);
                Some(items)
            },
            _ => None,
        }
    }
}

/// A member of a value whose objects have no two members of one name is such a
/// value too.
pub proof fn lemma_member_has_distinct_names(value: JsonView, name: Seq<char>)
    requires
        value.has_distinct_names(),
        value.get(name) is Some,
    ensures
        value.get(name)->0.has_distinct_names(),
{
    if let JsonView::Object(members) = value {
        lemma_lookup_has_distinct_names(members, name);
    }
}

proof fn lemma_lookup_has_distinct_names(members: Seq<(Seq<char>, JsonView)>, name: Seq<char>)
    requires
        forall|i: int| 0 <= i < members.len() ==> (#[trigger] members[i]).1.has_distinct_names(),
        JsonView::lookup(members, name) is Some,
    ensures
        JsonView::lookup(members, name)->0.has_distinct_names(),
    decreases members.len(),
{
    if members[0].0 != name {
        assert forall|i: int| 0 <= i < members.skip(1).len() implies (
        #[trigger] members.skip(1)[i]).1.has_distinct_names() by {
            assert(members.skip(1)[i] == members[i + 1]);
        }
        lemma_lookup_has_distinct_names(members.skip(1), name);
    }
}

/// The member of an object with a name is the value of the first member that has
/// it. Without one there is none, and a value that is no object has no members.
pub proof fn law_member_by_name(members: Seq<(Seq<char>, JsonView)>, i: int, name: Seq<char>)
    ensures
        0 <= i < members.len() && members[i].0 == name && (forall|j: int|
            0 <= j < i ==> (#[trigger] members[j]).0 != name) ==> JsonView::Object(members).get(
            name,
        ) == Some(members[i].1),
        (forall|j: int| 0 <= j < members.len() ==> (#[trigger] members[j]).0 != name)
            ==> JsonView::Object(members).get(name) is None,
        forall|value: JsonView| !(value is Object) ==> (#[trigger] value.get(name)) is None,
    decreases members.len(),
{
    if members.len() > 0 {
        let rest = members.skip(1);
        law_member_by_name(rest, i - 1, name);
        assert forall|j: int| 0 <= j < rest.len() implies rest[j] == #[trigger] members[j + 1] by {}
        if 0 < i < members.len() && members[i].0 == name && (forall|j: int|
            0 <= j < i ==> (#[trigger] members[j]).0 != name) {
            assert(rest[i - 1] == members[i]);
            assert forall|j: int| 0 <= j < i - 1 implies (#[trigger] rest[j]).0 != name by {
                assert(members[j + 1].0 != name);
            }
            assert(members[0].0 != name);
        }
        if forall|j: int| 0 <= j < members.len() ==> (#[trigger] members[j]).0 != name {
            assert forall|j: int| 0 <= j < rest.len() implies (#[trigger] rest[j]).0 != name by {
                assert(members[j + 1].0 != name);
            }
            assert(members[0].0 != name);
        }
    }
}

/// A member counts as a string or as an array only where it is one.
pub proof fn law_member_kinds(value: JsonView, name: Seq<char>)
    ensures
        forall|s: Seq<char>| value.get(name) == Some(JsonView::Str(s)) <==> value.get_str(name)
            == Some(s),
        forall|items: Seq<JsonView>|
            value.get(name) == Some(JsonView::Array(items)) <==> value.get_array(name) == Some(
                items,
            ),
{
}

} // verus!

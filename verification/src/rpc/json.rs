//! JSON values.

use vstd::prelude::*;
use crate::text::same_text;

verus! {

/// A JSON value.
#[derive(Debug)]
pub enum Json {
    Null,
    Bool(bool),
    /// A number that is an integer of at least 0.
    PosInt(u64),
    /// A number that is an integer below 0.
    NegInt(i64),
    /// Any other number, as the bits of its IEEE 754 double.
    Float(u64),
    Str(String),
    Array(Vec<Json>),
    /// Members in their order.
    Object(Vec<(String, Json)>),
}

/// A JSON value as a value.
pub ghost enum JsonView {
    Null,
    Bool(bool),
    PosInt(u64),
    NegInt(i64),
    Float(u64),
    Str(Seq<char>),
    Array(Seq<JsonView>),
    Object(Seq<(Seq<char>, JsonView)>),
}

impl Json {
    /// The value of a JSON value.
    pub open spec fn model(self) -> JsonView
        decreases self,
    {
        match self {
            Json::Null => JsonView::Null,
            Json::Bool(b) => JsonView::Bool(b),
            Json::PosInt(n) => JsonView::PosInt(n),
            Json::NegInt(n) => JsonView::NegInt(n),
            Json::Float(bits) => JsonView::Float(bits),
            Json::Str(s) => JsonView::Str(s@),
            Json::Array(items) => JsonView::Array(
                Seq::new(
                    items@.len(),
                    |i: int|
                        if 0 <= i < items@.len() {
                            items@[i].model()
                        } else {
                            JsonView::Null
                        },
                ),
            ),
            Json::Object(members) => JsonView::Object(
                Seq::new(
                    members@.len(),
                    |i: int|
                        if 0 <= i < members@.len() {
                            (members@[i].0@, members@[i].1.model())
                        } else {
                            (Seq::empty(), JsonView::Null)
                        },
                ),
            ),
        }
    }
}

impl View for Json {
    type V = JsonView;

    open spec fn view(&self) -> JsonView {
        self.model()
    }
}

/// A string.
pub fn text_json(s: &str) -> (r: Json)
    ensures
        r@ == JsonView::Str(s@),
{
    Json::Str(s.to_string())
}

/// An array of the items.
pub fn array_json(items: Vec<Json>) -> (r: Json)
    ensures
        r@ == JsonView::Array(items@.map_values(|i: Json| i@)),
{
    let r = Json::Array(items);
    assert(r@->Array_0 =~= items@.map_values(|i: Json| i@));
    r
}

/// Members as values.
pub open spec fn members_view(members: Seq<(String, Json)>) -> Seq<(Seq<char>, JsonView)> {
    members.map_values(|m: (String, Json)| (m.0@, m.1@))
}

/// An object of the members.
pub fn object_json(members: Vec<(String, Json)>) -> (r: Json)
    ensures
        r@ == JsonView::Object(members_view(members@)),
{
    let r = Json::Object(members);
    assert(r@->Object_0 =~= members_view(members@));
    r
}

/// A member of an object.
pub fn member(name: &str, value: Json) -> (r: (String, Json))
    ensures
        r.0@ == name@,
        r.1 == value,
{
    (name.to_string(), value)
}

/// The value of the first member called `name`.
pub open spec fn lookup(members: Seq<(Seq<char>, JsonView)>, name: Seq<char>) -> Option<JsonView>
    decreases members.len(),
{
    if members.len() == 0 {
        None
    } else if members[0].0 == name {
        Some(members[0].1)
    } else {
        lookup(members.drop_first(), name)
    }
}

impl JsonView {
    /// The member called `name`, where this is an object that has one.
    pub open spec fn member(self, name: Seq<char>) -> Option<JsonView> {
        match self {
            JsonView::Object(members) => lookup(members, name),
            _ => None,
        }
    }

    /// The text of the member called `name`, where there is one and it is a string.
    pub open spec fn text_member(self, name: Seq<char>) -> Option<Seq<char>> {
        match self.member(name) {
            Some(JsonView::Str(s)) => Some(s),
            _ => None,
        }
    }

    /// The member called `name`, where there is one and it is an integer of at least 0.
    pub open spec fn count_member(self, name: Seq<char>) -> Option<u64> {
        match self.member(name) {
            Some(JsonView::PosInt(n)) => Some(n),
            _ => None,
        }
    }
}

impl Json {
    /// The member called `name`, where this is an object that has one.
    pub fn get(&self, name: &str) -> (r: Option<&Json>)
        ensures
            match r {
                Some(j) => self@.member(name@) == Some(j@),
                None => self@.member(name@) is None,
            },
    {
        match self {
            Json::Object(members) => {
                let ghost all = self@->Object_0;
                let mut i: usize = 0;
                assert(all.skip(0) =~= all);
                while i < members.len()
                    invariant
                        0 <= i <= members@.len(),
                        *self == Json::Object(*members),
                        all == self@->Object_0,
                        lookup(all, name@) == lookup(all.skip(i as int), name@),
                    decreases members@.len() - i,
                {
                    assert(all.skip(i as int)[0] == all[i as int]);
                    assert(all[i as int] == (members@[i as int].0@, members@[i as int].1@));
                    if same_text(members[i].0.as_str(), name) {
                        return Some(&members[i].1);
                    }
                    assert(all.skip(i as int).drop_first() =~= all.skip(i + 1));
                    i = i + 1;
                }
                None
            },
            _ => None,
        }
    }

    /// The text, where this is a string.
    pub fn as_str(&self) -> (r: Option<&str>)
        ensures
            match r {
                Some(s) => self@ == JsonView::Str(s@),
                None => !(self@ is Str),
            },
    {
        match self {
            Json::Str(s) => Some(s.as_str()),
            _ => None,
        }
    }

    /// The number, where this is an integer of at least 0.
    pub fn as_u64(&self) -> (r: Option<u64>)
        ensures
            match r {
                Some(n) => self@ == JsonView::PosInt(n),
                None => !(self@ is PosInt),
            },
    {
        match self {
            Json::PosInt(n) => Some(*n),
            _ => None,
        }
    }

    /// The text of the member called `name`, where there is one and it is a string.
    pub fn text_member(&self, name: &str) -> (r: Option<&str>)
        ensures
            match r {
                Some(s) => self@.text_member(name@) == Some(s@),
                None => self@.text_member(name@) is None,
            },
    {
        match self.get(name) {
            Some(j) => j.as_str(),
            None => None,
        }
    }

    /// The member called `name`, where there is one and it is an integer of at least 0.
    pub fn count_member(&self, name: &str) -> (r: Option<u64>)
        ensures
            r == self@.count_member(name@),
    {
        match self.get(name) {
            Some(j) => j.as_u64(),
            None => None,
        }
    }
}

/// A lookup finds the first member of that name.
pub proof fn lookups_find_the_first_member(
    members: Seq<(Seq<char>, JsonView)>,
    name: Seq<char>,
    i: int,
)
    requires
        0 <= i < members.len(),
        members[i].0 == name,
        forall|j: int| 0 <= j < i ==> (#[trigger] members[j]).0 != name,
    ensures
        lookup(members, name) == Some(members[i].1),
    decreases i,
{
    if i > 0 {
        let rest = members.drop_first();
        assert(members[0].0 != name);
        assert forall|j: int| 0 <= j < i - 1 implies (#[trigger] rest[j]).0 != name by {
            assert(rest[j] == members[j + 1]);
        }
        lookups_find_the_first_member(rest, name, i - 1);
    }
}

/// A lookup finds nothing where no member has that name.
pub proof fn lookups_find_no_other_member(members: Seq<(Seq<char>, JsonView)>, name: Seq<char>)
    requires
        forall|j: int| 0 <= j < members.len() ==> (#[trigger] members[j]).0 != name,
    ensures
        lookup(members, name) is None,
    decreases members.len(),
{
    if members.len() > 0 {
        let rest = members.drop_first();
        assert(members[0].0 != name);
        assert forall|j: int| 0 <= j < rest.len() implies (#[trigger] rest[j]).0 != name by {
            assert(rest[j] == members[j + 1]);
        }
        lookups_find_no_other_member(rest, name);
    }
}

/// Only objects have members; the text of a member is that of a string, whole, and its count
/// that of an integer of at least 0; members of another kind have neither.
pub proof fn members_are_read_by_their_kind(
    j: JsonView,
    name: Seq<char>,
    s: Seq<char>,
    n: u64,
)
    ensures
        j matches JsonView::Object(members) ==> j.member(name) == lookup(members, name),
        !(j is Object) ==> j.member(name) is None,
        j.text_member(name) == Some(s) <==> j.member(name) == Some(JsonView::Str(s)),
        j.text_member(name) is None <==> !(j.member(name) is Some && j.member(name)->0 is Str),
        j.count_member(name) == Some(n) <==> j.member(name) == Some(JsonView::PosInt(n)),
        j.count_member(name) is None <==> !(j.member(name) is Some && j.member(name)->0 is PosInt),
{
}

/// A JSON value is seen whole: every text, number and flag, every item of an array and every
/// member of an object, in their order.
pub proof fn json_values_are_seen_whole(j: Json)
    ensures
        match j {
            Json::Null => j@ == JsonView::Null,
            Json::Bool(b) => j@ == JsonView::Bool(b),
            Json::PosInt(n) => j@ == JsonView::PosInt(n),
            Json::NegInt(n) => j@ == JsonView::NegInt(n),
            Json::Float(bits) => j@ == JsonView::Float(bits),
            Json::Str(s) => j@ == JsonView::Str(s@),
            Json::Array(items) => {
                &&& j@ is Array
                &&& j@->Array_0.len() == items@.len()
                &&& forall|i: int|
                    0 <= i < items@.len() ==> #[trigger] j@->Array_0[i] == items@[i]@
            },
            Json::Object(members) => {
                &&& j@ is Object
                &&& j@->Object_0.len() == members@.len()
                &&& forall|i: int|
                    0 <= i < members@.len() ==> #[trigger] j@->Object_0[i] == (
                        members@[i].0@,
                        members@[i].1@,
                    )
            },
        },
{
}

/// Members are seen with their names and values, in their order.
pub proof fn members_are_seen_whole(members: Seq<(String, Json)>)
    ensures
        members_view(members).len() == members.len(),
        forall|i: int|
            0 <= i < members.len() ==> #[trigger] members_view(members)[i] == (
                members[i].0@,
                members[i].1@,
            ),
{
}

} // verus!

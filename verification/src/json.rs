//! JSON values and their mathematical model.
use vstd::prelude::*;
use crate::bytes::{clone_bytes, same_bytes};

pub mod laws;
pub mod lex;
pub mod parse;
pub mod text;

verus! {

/// A member of a JSON object.
#[derive(Debug, PartialEq, Eq)]
pub struct Member {
    pub key: Vec<u8>,
    pub value: Json,
}

/// A JSON value. A number keeps the numeral it was written with; a text
/// holds its bytes with every escape resolved; an object keeps its members
/// in the order in which they were written.
#[derive(Debug, PartialEq, Eq)]
pub enum Json {
    Null,
    Bool(bool),
    Number(Vec<u8>),
    Text(Vec<u8>),
    Array(Vec<Json>),
    Object(Vec<Member>),
}

/// The mathematical value of a [`Json`].
pub enum JsonView {
    Null,
    Bool(bool),
    Number(Seq<u8>),
    Text(Seq<u8>),
    Array(Seq<JsonView>),
    Object(Seq<MemberView>),
}

/// The mathematical value of a [`Member`].
pub struct MemberView {
    pub key: Seq<u8>,
    pub value: JsonView,
}

/// How deeply arrays and objects may nest in a text that is read.
pub const MAX_DEPTH: usize = 128;

impl View for Json {
    type V = JsonView;

    open spec fn view(&self) -> JsonView
        decreases self,
    {
        match self {
            Json::Null => JsonView::Null,
            Json::Bool(b) => JsonView::Bool(*b),
            Json::Number(n) => JsonView::Number(n@),
            Json::Text(t) => JsonView::Text(t@),
            Json::Array(items) => JsonView::Array(
                Seq::new(
                    items.len() as nat,
                    |i: int|
                        if 0 <= i < items.len() {
                            items[i].view()
                        } else {
                            JsonView::Null
                        },
                ),
            ),
            Json::Object(members) => JsonView::Object(
                Seq::new(
                    members.len() as nat,
                    |i: int|
                        if 0 <= i < members.len() {
                            MemberView { key: members[i].key@, value: members[i].value.view() }
                        } else {
                            MemberView { key: Seq::empty(), value: JsonView::Null }
                        },
                ),
            ),
        }
    }
}

impl View for Member {
    type V = MemberView;

    open spec fn view(&self) -> MemberView {
        MemberView { key: self.key@, value: self.value@ }
    }
}

/// The values of a sequence of JSON values.
pub open spec fn items_view(items: Seq<Json>) -> Seq<JsonView> {
    Seq::new(items.len(), |i: int| items[i]@)
}

/// The values of a sequence of members.
pub open spec fn members_view(members: Seq<Member>) -> Seq<MemberView> {
    Seq::new(members.len(), |i: int| members[i]@)
}

/// The value of an array is the array of its items' values.
pub proof fn lemma_array_view(items: Vec<Json>)
    ensures
        Json::Array(items)@ == JsonView::Array(items_view(items@)),
{
    assert(Json::Array(items)@->Array_0 =~= items_view(items@));
}

/// The value of an object is the sequence of its members' values.
pub proof fn lemma_object_view(members: Vec<Member>)
    ensures
        Json::Object(members)@ == JsonView::Object(members_view(members@)),
{
    let a = Json::Object(members)@->Object_0;
    let b = members_view(members@);
    assert(a.len() == b.len());
    assert(a =~= b);
}

/// Whether every number in `v` is a JSON numeral and arrays and objects
/// nest at most `depth` deep.
pub open spec fn well_formed(v: JsonView, depth: nat) -> bool
    decreases v,
{
    match v {
        JsonView::Number(n) => lex::is_number(n),
        JsonView::Array(items) => depth > 0 && forall|i: int|
            0 <= i < items.len() ==> well_formed(#[trigger] items[i], (depth - 1) as nat),
        JsonView::Object(members) => depth > 0 && forall|i: int|
            0 <= i < members.len() ==> well_formed((#[trigger] members[i]).value, (depth - 1) as nat),
        _ => true,
    }
}

/// The items of a well-formed array are well formed one level further in.
pub proof fn lemma_array_item(x: Seq<JsonView>, d: nat, i: int)
    requires
        well_formed(JsonView::Array(x), d),
        0 <= i < x.len(),
    ensures
        d > 0,
        well_formed(x[i], (d - 1) as nat),
{
    let v = JsonView::Array(x);
    assert(d > 0);
    assert(v->Array_0 == x);
    assert(forall|j: int| 0 <= j < x.len() ==> well_formed(#[trigger] x[j], (d - 1) as nat));
}

/// A value that nests within a depth nests within every greater depth.
pub proof fn lemma_well_formed_deeper(v: JsonView, d1: nat, d2: nat)
    requires
        well_formed(v, d1),
        d1 <= d2,
    ensures
        well_formed(v, d2),
    decreases v,
{
    match v {
        JsonView::Array(items) => {
            assert forall|i: int| 0 <= i < items.len() implies well_formed(
                #[trigger] items[i],
                (d2 - 1) as nat,
            ) by {
                lemma_well_formed_deeper(items[i], (d1 - 1) as nat, (d2 - 1) as nat);
            }
        },
        JsonView::Object(members) => {
            assert forall|i: int| 0 <= i < members.len() implies well_formed(
                (#[trigger] members[i]).value,
                (d2 - 1) as nat,
            ) by {
                lemma_well_formed_deeper(members[i].value, (d1 - 1) as nat, (d2 - 1) as nat);
            }
        },
        _ => {},
    }
}

/// Copies a value.
pub fn duplicate(v: &Json) -> (r: Json)
    ensures
        r@ == v@,
    decreases v,
{
    match v {
        Json::Null => Json::Null,
        Json::Bool(b) => Json::Bool(*b),
        Json::Number(n) => Json::Number(clone_bytes(n)),
        Json::Text(t) => Json::Text(clone_bytes(t)),
        Json::Array(items) => {
            let mut out: Vec<Json> = Vec::new();
            let mut i: usize = 0;
            while i < items.len()
                invariant
                    i <= items.len(),
                    out.len() == i,
                    *v == Json::Array(*items),
                    forall|j: int| 0 <= j < i ==> (#[trigger] out@[j])@ == items@[j]@,
                decreases items.len() - i,
            {
                assert(decreases_to!(*v => v->Array_0));
                assert(decreases_to!(*items => items@));
                assert(decreases_to!(items@ => items@[i as int]));
                out.push(duplicate(&items[i]));
                i += 1;
            }
            proof {
                lemma_array_view(out);
                lemma_array_view(*items);
                assert(items_view(out@) =~= items_view(items@));
            }
            Json::Array(out)
        },
        Json::Object(members) => {
            let out = duplicate_members(members);
            proof {
                lemma_object_view(out);
                lemma_object_view(*members);
            }
            Json::Object(out)
        },
    }
}

/// Copies the members of an object.
pub fn duplicate_members(members: &Vec<Member>) -> (r: Vec<Member>)
    ensures
        members_view(r@) == members_view(members@),
    decreases members,
{
    let mut out: Vec<Member> = Vec::new();
    let mut i: usize = 0;
    while i < members.len()
        invariant
            i <= members.len(),
            out.len() == i,
            forall|j: int| 0 <= j < i ==> (#[trigger] out@[j])@ == members@[j]@,
        decreases members.len() - i,
    {
        assert(decreases_to!(*members => members@));
        assert(decreases_to!(members@ => members@[i as int]));
        assert(decreases_to!(members@[i as int] => members@[i as int].value));
        let value = duplicate(&members[i].value);
        out.push(Member { key: clone_bytes(&members[i].key), value });
        i += 1;
    }
    assert(members_view(out@) =~= members_view(members@));
    out
}

/// Decides whether two values are the same value.
pub fn same(a: &Json, b: &Json) -> (r: bool)
    ensures
        r == (a@ == b@),
    decreases a,
{
    match (a, b) {
        (Json::Null, Json::Null) => true,
        (Json::Bool(x), Json::Bool(y)) => *x == *y,
        (Json::Number(x), Json::Number(y)) => same_bytes(x, y),
        (Json::Text(x), Json::Text(y)) => same_bytes(x, y),
        (Json::Array(x), Json::Array(y)) => {
            proof {
                lemma_array_view(*x);
                lemma_array_view(*y);
            }
            if x.len() != y.len() {
                assert(items_view(x@).len() != items_view(y@).len());
                return false;
            }
            let mut i: usize = 0;
            while i < x.len()
                invariant
                    i <= x.len(),
                    x.len() == y.len(),
                    *a == Json::Array(*x),
                    a@ == JsonView::Array(items_view(x@)),
                    b@ == JsonView::Array(items_view(y@)),
                    forall|j: int| 0 <= j < i ==> x@[j]@ == y@[j]@,
                decreases x.len() - i,
            {
                assert(decreases_to!(*a => a->Array_0));
                assert(decreases_to!(*x => x@));
                assert(decreases_to!(x@ => x@[i as int]));
                if !same(&x[i], &y[i]) {
                    assert(items_view(x@)[i as int] != items_view(y@)[i as int]);
                    return false;
                }
                i += 1;
            }
            assert(items_view(x@) =~= items_view(y@));
            true
        },
        (Json::Object(x), Json::Object(y)) => {
            proof {
                lemma_object_view(*x);
                lemma_object_view(*y);
            }
            same_members(x, y)
        },
        _ => false,
    }
}

/// Decides whether two sequences of members are the same.
pub fn same_members(x: &Vec<Member>, y: &Vec<Member>) -> (r: bool)
    ensures
        r == (members_view(x@) == members_view(y@)),
    decreases x,
{
    if x.len() != y.len() {
        assert(members_view(x@).len() != members_view(y@).len());
        return false;
    }
    let mut i: usize = 0;
    while i < x.len()
        invariant
            i <= x.len(),
            x.len() == y.len(),
            forall|j: int| 0 <= j < i ==> x@[j]@ == y@[j]@,
        decreases x.len() - i,
    {
        assert(decreases_to!(*x => x@));
        assert(decreases_to!(x@ => x@[i as int]));
        assert(decreases_to!(x@[i as int] => x@[i as int].value));
        if !same_bytes(&x[i].key, &y[i].key) || !same(&x[i].value, &y[i].value) {
            assert(members_view(x@)[i as int] != members_view(y@)[i as int]);
            return false;
        }
        i += 1;
    }
    assert(members_view(x@) =~= members_view(y@));
    true
}

/// Decides whether `v` is well formed within `depth`.
pub fn check(v: &Json, depth: usize) -> (r: bool)
    ensures
        r == well_formed(v@, depth as nat),
    decreases v,
{
    match v {
        Json::Number(n) => lex::check_number(n),
        Json::Array(items) => {
            proof {
                lemma_array_view(*items);
            }
            if depth == 0 {
                return false;
            }
            let mut i: usize = 0;
            while i < items.len()
                invariant
                    i <= items.len(),
                    depth > 0,
                    *v == Json::Array(*items),
                    v@ == JsonView::Array(items_view(items@)),
                    forall|j: int|
                        0 <= j < i ==> well_formed(#[trigger] items_view(items@)[j], (depth - 1) as nat),
                decreases items.len() - i,
            {
                assert(decreases_to!(*v => v->Array_0));
                assert(decreases_to!(*items => items@));
                assert(decreases_to!(items@ => items@[i as int]));
                if !check(&items[i], depth - 1) {
                    assert(items_view(items@)[i as int] == items@[i as int]@);
                    assert(!well_formed(items_view(items@)[i as int], (depth - 1) as nat));
                    proof {
                        let x = items_view(items@);
                        if well_formed(JsonView::Array(x), depth as nat) {
                            lemma_array_item(x, depth as nat, i as int);
                        }
                    }
                    return false;
                }
                assert(items_view(items@)[i as int] == items@[i as int]@);
                i += 1;
            }
            true
        },
        Json::Object(members) => {
            proof {
                lemma_object_view(*members);
            }
            if depth == 0 {
                return false;
            }
            check_members(members, depth - 1)
        },
        _ => true,
    }
}

/// Decides whether the value of every member is well formed within `depth`.
pub fn check_members(members: &Vec<Member>, depth: usize) -> (r: bool)
    ensures
        r == (forall|j: int|
            0 <= j < members.len() ==> well_formed(
                (#[trigger] members_view(members@)[j]).value,
                depth as nat,
            )),
    decreases members,
{
    let mut i: usize = 0;
    while i < members.len()
        invariant
            i <= members.len(),
            forall|j: int|
                0 <= j < i ==> well_formed((#[trigger] members_view(members@)[j]).value, depth as nat),
        decreases members.len() - i,
    {
        assert(decreases_to!(*members => members@));
        assert(decreases_to!(members@ => members@[i as int]));
        assert(decreases_to!(members@[i as int] => members@[i as int].value));
        assert(members_view(members@)[i as int] == members@[i as int]@);
        if !check(&members[i].value, depth) {
            assert(members_view(members@).len() == members.len());
            assert(!well_formed(members_view(members@)[i as int].value, depth as nat));
            return false;
        }
        i += 1;
    }
    true
}

} // verus!

//! The JSON value model: a recursive sum type whose numbers carry their
//! literal text, so that values round-trip through the codec exactly.

use vstd::prelude::*;

verus! {

/// A JSON value. Array elements and object members keep their document
/// order; numbers are stored as their source literal.
#[derive(Debug, PartialEq, Eq)]
pub enum JsonValue {
    Null,
    Bool(bool),
    Num(Vec<char>),
    Str(Vec<char>),
    Array(Vec<JsonValue>),
    Object(Vec<(Vec<char>, JsonValue)>),
}

/// The mathematical shape of a [`JsonValue`]: the same tree over `Seq`.
pub enum JsonSpec {
    Null,
    Bool(bool),
    Num(Seq<char>),
    Str(Seq<char>),
    Array(Seq<JsonSpec>),
    Object(Seq<(Seq<char>, JsonSpec)>),
}

impl JsonValue {
    /// The abstract tree this value represents.
    pub open spec fn deep(self) -> JsonSpec
        decreases self, 0nat,
    {
        match self {
            JsonValue::Null => JsonSpec::Null,
            JsonValue::Bool(b) => JsonSpec::Bool(b),
            JsonValue::Num(l) => JsonSpec::Num(l@),
            JsonValue::Str(s) => JsonSpec::Str(s@),
            JsonValue::Array(elems) => JsonSpec::Array(deep_elems(elems@, 0)),
            JsonValue::Object(members) => JsonSpec::Object(deep_members(members@, 0)),
        }
    }
}

/// The abstract trees of `elems[i..]`.
pub open spec fn deep_elems(elems: Seq<JsonValue>, i: int) -> Seq<JsonSpec>
    decreases elems, elems.len() - i + 1,
{
    if i < 0 || i >= elems.len() {
        Seq::empty()
    } else {
        seq![elems[i].deep()] + deep_elems(elems, i + 1)
    }
}

/// The abstract members of `members[i..]`.
pub open spec fn deep_members(members: Seq<(Vec<char>, JsonValue)>, i: int) -> Seq<
    (Seq<char>, JsonSpec),
>
    decreases members, members.len() - i + 1,
{
    if i < 0 || i >= members.len() {
        Seq::empty()
    } else {
        seq![(members[i].0@, members[i].1.deep())] + deep_members(members, i + 1)
    }
}

/// `deep_elems(elems, i)` lists exactly the views of the elements from `i` on.
pub proof fn lemma_deep_elems(elems: Seq<JsonValue>, i: int)
    requires
        0 <= i <= elems.len(),
    ensures
        deep_elems(elems, i).len() == elems.len() - i,
        forall|k: int|
            i <= k < elems.len() ==> deep_elems(elems, i)[k - i] == #[trigger] elems[k].deep(),
    decreases elems.len() - i,
{
    if i < elems.len() {
        lemma_deep_elems(elems, i + 1);
    }
}

/// `deep_members(members, i)` lists exactly the views of the members from `i` on.
pub proof fn lemma_deep_members(members: Seq<(Vec<char>, JsonValue)>, i: int)
    requires
        0 <= i <= members.len(),
    ensures
        deep_members(members, i).len() == members.len() - i,
        forall|k: int|
            i <= k < members.len() ==> deep_members(members, i)[k - i] == (
            #[trigger] members[k].0@,
            members[k].1.deep(),
        ),
    decreases members.len() - i,
{
    if i < members.len() {
        lemma_deep_members(members, i + 1);
    }
}

/// Appending an element appends its view.
pub proof fn lemma_deep_elems_push(elems: Seq<JsonValue>, v: JsonValue)
    ensures
        deep_elems(elems.push(v), 0) == deep_elems(elems, 0).push(v.deep()),
{
    lemma_deep_elems(elems, 0);
    lemma_deep_elems(elems.push(v), 0);
    assert forall|k: int| 0 <= k < elems.len() + 1 implies deep_elems(elems.push(v), 0)[k]
        == deep_elems(elems, 0).push(v.deep())[k] by {
        assert(deep_elems(elems.push(v), 0)[k] == elems.push(v)[k].deep());
        if k < elems.len() {
            assert(elems.push(v)[k] == elems[k]);
            assert(deep_elems(elems, 0)[k] == elems[k].deep());
        } else {
            assert(elems.push(v)[k] == v);
        }
    }
    assert(deep_elems(elems.push(v), 0) =~= deep_elems(elems, 0).push(v.deep()));
}

/// Appending a member appends its view.
pub proof fn lemma_deep_members_push(
    members: Seq<(Vec<char>, JsonValue)>,
    key: Vec<char>,
    v: JsonValue,
)
    ensures
        deep_members(members.push((key, v)), 0) == deep_members(members, 0).push((key@, v.deep())),
{
    lemma_deep_members(members, 0);
    lemma_deep_members(members.push((key, v)), 0);
    assert forall|k: int| 0 <= k < members.len() + 1 implies deep_members(members.push((key, v)), 0)[k]
        == deep_members(members, 0).push((key@, v.deep()))[k] by {
        assert(deep_members(members.push((key, v)), 0)[k] == (
            members.push((key, v))[k].0@,
            members.push((key, v))[k].1.deep(),
        ));
        if k < members.len() {
            assert(members.push((key, v))[k] == members[k]);
            assert(deep_members(members, 0)[k] == (members[k].0@, members[k].1.deep()));
        } else {
            assert(members.push((key, v))[k] == (key, v));
        }
    }
    assert(deep_members(members.push((key, v)), 0) =~= deep_members(members, 0).push(
        (key@, v.deep()),
    ));
}

/// Nesting depth of a value: scalars have depth 0, a container is one deeper
/// than its deepest child (an empty container has depth 1).
pub open spec fn depth(v: JsonSpec) -> nat
    decreases v, 0nat,
{
    match v {
        JsonSpec::Array(elems) => 1 + depth_elems(elems, 0),
        JsonSpec::Object(members) => 1 + depth_members(members, 0),
        _ => 0,
    }
}

pub open spec fn depth_elems(elems: Seq<JsonSpec>, i: int) -> nat
    decreases elems, elems.len() - i + 1,
{
    if i < 0 || i >= elems.len() {
        0
    } else {
        let d = depth(elems[i]);
        let rest = depth_elems(elems, i + 1);
        if d >= rest {
            d
        } else {
            rest
        }
    }
}

pub open spec fn depth_members(members: Seq<(Seq<char>, JsonSpec)>, i: int) -> nat
    decreases members, members.len() - i + 1,
{
    if i < 0 || i >= members.len() {
        0
    } else {
        let d = depth(members[i].1);
        let rest = depth_members(members, i + 1);
        if d >= rest {
            d
        } else {
            rest
        }
    }
}

/// Every element's depth is bounded by the list depth.
pub proof fn lemma_depth_elems_bound(elems: Seq<JsonSpec>, i: int, k: int)
    requires
        0 <= i <= k < elems.len(),
    ensures
        depth(elems[k]) <= depth_elems(elems, i),
    decreases k - i,
{
    if i < k {
        lemma_depth_elems_bound(elems, i + 1, k);
    }
}

/// Every member value's depth is bounded by the list depth.
pub proof fn lemma_depth_members_bound(members: Seq<(Seq<char>, JsonSpec)>, i: int, k: int)
    requires
        0 <= i <= k < members.len(),
    ensures
        depth(members[k].1) <= depth_members(members, i),
    decreases k - i,
{
    if i < k {
        lemma_depth_members_bound(members, i + 1, k);
    }
}

} // verus!

//! A JSON document as plain values, the form in which plans reach the
//! library.

use vstd::prelude::*;

verus! {

/// A JSON value. Numbers are kept as their text; object members keep the
/// order in which the document gives them.
#[derive(Debug)]
pub enum JsonValue {
    Null,
    Bool(bool),
    Number(String),
    Str(String),
    Array(Vec<JsonValue>),
    Object(Vec<(String, JsonValue)>),
}

/// The value of the first member of `members` whose name is `key`.
pub open spec fn member_lookup(members: Seq<(String, JsonValue)>, key: Seq<char>) -> Option<JsonValue>
    decreases members.len(),
{
    if members.len() == 0 {
        None
    } else if members[0].0@ == key {
        Some(members[0].1)
    } else {
        member_lookup(members.drop_first(), key)
    }
}

/// Skipping members whose names differ from `key` does not change the lookup.
pub proof fn lemma_lookup_skip(members: Seq<(String, JsonValue)>, key: Seq<char>, i: int)
    requires
        0 <= i <= members.len(),
        forall|k: int| 0 <= k < i ==> (#[trigger] members[k]).0@ != key,
    ensures
        member_lookup(members, key) == member_lookup(members.skip(i), key),
    decreases i,
{
    if i > 0 {
        lemma_lookup_skip(members.drop_first(), key, i - 1);
        assert(members.drop_first().skip(i - 1) =~= members.skip(i));
    } else {
        assert(members.skip(0) =~= members);
    }
}

} // verus!

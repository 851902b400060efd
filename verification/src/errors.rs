//! Immediate-mode error reporting: messages stored under an ID until cleared.

use vstd::prelude::*;
use crate::str_map::StrMap;

verus! {

broadcast use vstd::string::group_string_axioms;

/// The reported errors, by ID.
pub struct Errors {
    pub data: StrMap<String>,
}

impl Errors {
    pub fn new() -> (e: Errors)
        ensures
            e.data@ == Map::<Seq<char>, String>::empty(),
    {
        Errors { data: StrMap::new() }
    }
}

/// The messages of a map of errors.
pub open spec fn messages(m: Map<Seq<char>, String>) -> Map<Seq<char>, Seq<char>> {
    m.map_values(|s: String| s@)
}

/// Stores an error message with the given ID, replacing an earlier one with the
/// same ID. This is useful for immediate mode error reporting when you don't
/// want to pollute the log on every frame.
pub fn report_error(errors: &mut Errors, id: &str, error: &str)
    ensures
        messages(final(errors).data@) == messages(old(errors).data@).insert(id@, error@),
{
    let ghost before = errors.data@;
    let msg = error.to_string();
    let ghost m = msg@;
    errors.data.insert(id.to_string(), msg);
    proof {
        assert(messages(errors.data@) =~= messages(before).insert(id@, m));
    }
}

/// Clears a previously set error. Use the same ID as when calling `report_error`.
pub fn clear_error(errors: &mut Errors, id: &str)
    ensures
        messages(final(errors).data@) == messages(old(errors).data@).remove(id@),
{
    let ghost before = errors.data@;
    errors.data.remove(&id.to_string());
    proof {
        assert(messages(errors.data@) =~= messages(before).remove(id@));
    }
}

/// Reporting an error and clearing it leaves no error under that ID; other IDs keep theirs.
pub proof fn law_clear_after_report(m: Map<Seq<char>, Seq<char>>, id: Seq<char>, msg: Seq<char>, other: Seq<char>)
    requires
        other != id,
    ensures
        !m.insert(id, msg).remove(id).dom().contains(id),
        m.insert(id, msg).remove(id).dom().contains(other) == m.dom().contains(other),
        m.dom().contains(other) ==> m.insert(id, msg).remove(id)[other] == m[other],
        m.insert(id, msg)[id] == msg,
{
}

} // verus!

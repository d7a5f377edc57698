//! Stored tasks.
use vstd::prelude::*;

use crate::text::{lowercase, str_eq, to_lower};

verus! {

/// A task's state as it is stored: its name in lower case.
pub fn stored_state(name: &str) -> (r: String)
    ensures
        r@ == lowercase(name@),
{
    to_lower(name)
}

/// Whether a stored state is final.
pub open spec fn is_final(state: Seq<char>) -> bool {
    state == "completed"@ || state == "failed"@ || state == "canceled"@
}

/// Whether a task in that state is loaded again after a restart.
pub fn is_active(state: &str) -> (r: bool)
    ensures
        r == !is_final(state@),
{
    !(str_eq(state, "completed") || str_eq(state, "failed") || str_eq(state, "canceled"))
}

/// A task is final once it completed, failed or was canceled, and in no other
/// state.
pub proof fn law_final_states(state: Seq<char>)
    ensures
        is_final("completed"@),
        is_final("failed"@),
        is_final("canceled"@),
        is_final(state) ==> state == "completed"@ || state == "failed"@ || state == "canceled"@,
        !is_final("working"@),
        !is_final("submitted"@),
{
    reveal_strlit("completed");
    reveal_strlit("failed");
    reveal_strlit("canceled");
    reveal_strlit("working");
    reveal_strlit("submitted");
    assert("submitted"@[0] == 's' && "completed"@[0] == 'c');
    assert("working"@.len() == 7 && "failed"@.len() == 6 && "canceled"@.len() == 8);
}

} // verus!

//! Outputs and threads: where writing starts, and how sources are spread.

use vstd::prelude::*;

use crate::persist::{after_reply, persist_start, PersistView, ReplyView};
use crate::schedule::{is_parallel, positions};

verus! {

/// Writing starts at the first output, without errors, and only a reply moves it on: past an output
/// whatever it was, but for a playlist with groups that was written, whose guide comes first. Only
/// a failure is an error.
pub proof fn replies_move_writing_on(state: PersistView, reply: ReplyView, has_groups: bool)
    ensures
        persist_start().output == 0,
        !persist_start().guide,
        persist_start().errors.len() == 0,
        ({
            let after = after_reply(state, reply, has_groups);
            let guide_next = reply is Written && has_groups && !state.guide;
            &&& reply is Nothing ==> after == state
            &&& guide_next ==> after.guide && after.output == state.output
            &&& !guide_next && !(reply is Nothing) ==> !after.guide && after.output == state.output
                + 1
            &&& reply is Failed ==> after.errors == state.errors.push(reply->Failed_0)
            &&& !(reply is Failed) ==> after.errors == state.errors
        }),
{
}

/// Sources have threads of their own exactly where there are several threads and several sources.
pub proof fn threads_are_used_for_several_sources(sources: nat, threads: u8)
    ensures
        is_parallel(sources, threads) <==> threads >= 2 && sources >= 2,
{
}

/// The positions from one to another are all of them, once each and in order.
pub proof fn positions_are_consecutive(from: int, end: int)
    requires
        0 <= from <= end <= usize::MAX,
    ensures
        positions(from, end).len() == end - from,
        forall|i: int| 0 <= i < end - from ==> #[trigger] positions(from, end)[i] == from + i,
{
}

} // verus!

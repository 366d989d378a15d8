//! Writing the playlist of a target to its outputs.
//!
//! The writing itself is up to the caller: [`persist_playlist`] says what to write next, and is
//! told how it went.

use vstd::prelude::*;

use crate::config::{ConfigTarget, TargetOutput, TargetType};
use crate::error::{errors_view, ErrorView, M3uFilterError};
use crate::playlist::PlaylistGroup;

verus! {

/// What to write next. The number is the position of the output.
#[derive(Clone, Copy, Debug, PartialEq, Eq, Structural)]
pub enum PersistAction {
    WriteM3u(usize),
    WriteStrm(usize),
    WriteXtream(usize),
    WriteEpg(usize),
    Done,
}

/// How the last action went.
#[derive(Debug)]
pub enum PersistReply {
    /// There was none yet.
    Nothing,
    Written,
    Failed(M3uFilterError),
}

/// What a reply says.
#[verifier::ext_equal]
pub enum ReplyView {
    Nothing,
    Written,
    Failed(ErrorView),
}

impl View for PersistReply {
    type V = ReplyView;

    open spec fn view(&self) -> ReplyView {
        match self {
            PersistReply::Nothing => ReplyView::Nothing,
            PersistReply::Written => ReplyView::Written,
            PersistReply::Failed(error) => ReplyView::Failed(error@),
        }
    }
}

/// How far the writing has come.
#[derive(Debug)]
pub struct PersistState {
    output: usize,
    guide: bool,
    errors: Vec<M3uFilterError>,
}

/// How far the writing has come: the output that is written, whether its playlist is written and
/// its guide is next, and what went wrong so far.
#[verifier::ext_equal]
pub struct PersistView {
    pub output: int,
    pub guide: bool,
    pub errors: Seq<ErrorView>,
}

impl View for PersistState {
    type V = PersistView;

    closed spec fn view(&self) -> PersistView {
        PersistView {
            output: self.output as int,
            guide: self.guide,
            errors: errors_view(self.errors@),
        }
    }
}

/// Nothing written yet.
pub open spec fn persist_start() -> PersistView {
    PersistView { output: 0, guide: false, errors: Seq::empty() }
}

/// The next action.
pub open spec fn persist_action(state: PersistView, outputs: Seq<TargetOutput>) -> PersistAction {
    let position = state.output as usize;
    if state.output >= outputs.len() {
        PersistAction::Done
    } else if state.guide {
        PersistAction::WriteEpg(position)
    } else {
        match outputs[state.output].target {
            TargetType::M3u => PersistAction::WriteM3u(position),
            TargetType::Strm => PersistAction::WriteStrm(position),
            TargetType::Xtream => PersistAction::WriteXtream(position),
        }
    }
}

/// How far the writing has come after a reply: where a playlist was written and has groups, its
/// guide is next; else the next output is.
pub open spec fn after_reply(
    state: PersistView,
    reply: ReplyView,
    has_groups: bool,
) -> PersistView {
    match reply {
        ReplyView::Nothing => state,
        ReplyView::Written => if !state.guide && has_groups {
            PersistView { guide: true, ..state }
        } else {
            PersistView { output: state.output + 1, guide: false, ..state }
        },
        ReplyView::Failed(error) => PersistView {
            output: state.output + 1,
            guide: false,
            errors: state.errors.push(error),
        },
    }
}

impl PersistState {
    /// Nothing written yet.
    pub fn new() -> (r: PersistState)
        ensures
            r@ == persist_start(),
    {
        let r = PersistState { output: 0, guide: false, errors: Vec::new() };
        assert(r@.errors =~= Seq::<ErrorView>::empty());
        r
    }

    /// What went wrong, if anything did.
    pub fn result(self) -> (r: Result<(), Vec<M3uFilterError>>)
        ensures
            r is Ok <==> self@.errors.len() == 0,
            r is Err ==> errors_view(r->Err_0@) == self@.errors,
    {
        if self.errors.is_empty() {
            Ok(())
        } else {
            Err(self.errors)
        }
    }
}

/// Takes in how the last action went, and says what to write next.
///
/// The playlist goes to each output in turn, and after it the guide, unless the playlist could not
/// be written or has no groups. A failure is kept, and the next output is written all the same.
pub fn persist_playlist(
    playlist: &[PlaylistGroup],
    target: &ConfigTarget,
    state: &mut PersistState,
    reply: PersistReply,
) -> (r: PersistAction)
    requires
        reply is Nothing || old(state)@.output < target.output@.len(),
    ensures
        final(state)@ == after_reply(old(state)@, reply@, playlist@.len() > 0),
        r == persist_action(final(state)@, target.output@),
{
    let count: usize = target.output.len();
    let ghost before = state.errors@;
    match reply {
        PersistReply::Nothing => {},
        PersistReply::Written => {
            if !state.guide && playlist.len() > 0 {
                state.guide = true;
            } else {
                state.output = state.output + 1;
                state.guide = false;
            }
        },
        PersistReply::Failed(error) => {
            state.errors.push(error);
            state.output = state.output + 1;
            state.guide = false;
            assert(errors_view(state.errors@) =~= errors_view(before).push(error@));
        },
    }
    let position: usize = state.output;
    if position >= count {
        PersistAction::Done
    } else if state.guide {
        PersistAction::WriteEpg(position)
    } else {
        match target.output[position].target {
            TargetType::M3u => PersistAction::WriteM3u(position),
            TargetType::Strm => PersistAction::WriteStrm(position),
            TargetType::Xtream => PersistAction::WriteXtream(position),
        }
    }
}

/// How writing the playlist and the guide to an output goes, or would go: the errors.
pub struct OutputReplies {
    pub playlist: Option<ErrorView>,
    pub guide: Option<ErrorView>,
}

/// The reply for an error or for none.
pub open spec fn reply_of(error: Option<ErrorView>) -> ReplyView {
    match error {
        Some(e) => ReplyView::Failed(e),
        None => ReplyView::Written,
    }
}

/// How far the writing has come after an output.
pub open spec fn after_output(
    state: PersistView,
    replies: OutputReplies,
    has_groups: bool,
) -> PersistView {
    let written = after_reply(state, reply_of(replies.playlist), has_groups);
    if written.guide {
        after_reply(written, reply_of(replies.guide), has_groups)
    } else {
        written
    }
}

/// How far the writing has come after the first outputs.
pub open spec fn after_outputs(replies: Seq<OutputReplies>, has_groups: bool) -> PersistView
    decreases replies.len(),
{
    if replies.len() == 0 {
        persist_start()
    } else {
        after_output(after_outputs(replies.drop_last(), has_groups), replies.last(), has_groups)
    }
}

/// What goes wrong with an output: the guide counts only where the playlist was written and has
/// groups.
pub open spec fn output_errors(replies: OutputReplies, has_groups: bool) -> Seq<ErrorView> {
    match replies.playlist {
        Some(e) => seq![e],
        None => match replies.guide {
            Some(e) => if has_groups {
                seq![e]
            } else {
                Seq::empty()
            },
            None => Seq::empty(),
        },
    }
}

/// What goes wrong with the outputs, in order.
pub open spec fn all_output_errors(replies: Seq<OutputReplies>, has_groups: bool) -> Seq<ErrorView>
    decreases replies.len(),
{
    if replies.len() == 0 {
        Seq::empty()
    } else {
        all_output_errors(replies.drop_last(), has_groups) + output_errors(
            replies.last(),
            has_groups,
        )
    }
}

/// Every error is kept, in order, and none keeps the next output from being reached.
pub proof fn every_error_is_kept(replies: Seq<OutputReplies>, has_groups: bool)
    ensures
        after_outputs(replies, has_groups) == (PersistView {
            output: replies.len() as int,
            guide: false,
            errors: all_output_errors(replies, has_groups),
        }),
    decreases replies.len(),
{
    if replies.len() > 0 {
        let before = after_outputs(replies.drop_last(), has_groups);
        every_error_is_kept(replies.drop_last(), has_groups);
        assert(after_outputs(replies, has_groups).errors =~= before.errors + output_errors(
            replies.last(),
            has_groups,
        ));
    }
}

/// Whatever went wrong before, the playlist is written to every output; the guide is written after
/// it where that went well and the playlist has groups; after the last output nothing is.
pub proof fn every_output_is_written(
    outputs: Seq<TargetOutput>,
    replies: Seq<OutputReplies>,
    has_groups: bool,
)
    requires
        replies.len() <= outputs.len() <= usize::MAX,
    ensures
        replies.len() == outputs.len() ==> persist_action(
            after_outputs(replies, has_groups),
            outputs,
        ) == PersistAction::Done,
        replies.len() < outputs.len() ==> ({
            let state = after_outputs(replies, has_groups);
            let position = replies.len() as usize;
            let written = after_reply(state, ReplyView::Written, has_groups);
            &&& persist_action(state, outputs) == match outputs[position as int].target {
                TargetType::M3u => PersistAction::WriteM3u(position),
                TargetType::Strm => PersistAction::WriteStrm(position),
                TargetType::Xtream => PersistAction::WriteXtream(position),
            }
            &&& persist_action(written, outputs) == PersistAction::WriteEpg(position)
                <==> has_groups
            &&& forall|e: ErrorView|
                persist_action(
                    #[trigger] after_reply(state, ReplyView::Failed(e), has_groups),
                    outputs,
                ) != PersistAction::WriteEpg(position)
        }),
{
    every_error_is_kept(replies, has_groups);
}

} // verus!

//! The default verb's state machine: what the tool does when invoked with
//! no subcommand.  With a live session of the right name it only switches
//! to it; otherwise it creates a detached session in the working directory,
//! restores the save file on a best-effort basis, switches over, and
//! snapshots the result.

use vstd::prelude::*;

use crate::model::{NewSessionOpts, NewSessionOptsView};

verus! {

/// One step of the default verb, in order of execution.
#[derive(Debug, Clone, PartialEq, Eq)]
pub enum DefaultAction {
    /// Transfer the user's terminal to the session.
    SwitchTo,
    /// Create a session with the given options.
    NewSession(NewSessionOpts),
    /// Restore the save file; a missing save file is not an error here.
    RestoreBestEffort,
    /// Snapshot the session to the save file.
    Snapshot,
}

/// Mathematical image of a [`DefaultAction`].
pub enum DefaultActionView {
    SwitchTo,
    NewSession(NewSessionOptsView),
    RestoreBestEffort,
    Snapshot,
}

impl View for DefaultAction {
    type V = DefaultActionView;

    open spec fn view(&self) -> DefaultActionView {
        match self {
            DefaultAction::SwitchTo => DefaultActionView::SwitchTo,
            DefaultAction::NewSession(opts) => DefaultActionView::NewSession(opts@),
            DefaultAction::RestoreBestEffort => DefaultActionView::RestoreBestEffort,
            DefaultAction::Snapshot => DefaultActionView::Snapshot,
        }
    }
}

/// The views of a vector of actions.
pub open spec fn action_views(a: Seq<DefaultAction>) -> Seq<DefaultActionView> {
    a.map_values(|x: DefaultAction| x@)
}

/// The default verb's whole behaviour: switch when the session exists, else
/// create it detached in the canonical directory, restore, switch, snapshot.
pub open spec fn spec_default_plan(has_session: bool, dir: Seq<char>) -> Seq<DefaultActionView> {
    if has_session {
        seq![DefaultActionView::SwitchTo]
    } else {
        seq![
            DefaultActionView::NewSession(
                NewSessionOptsView { detached: true, path: Some(dir) },
            ),
            DefaultActionView::RestoreBestEffort,
            DefaultActionView::SwitchTo,
            DefaultActionView::Snapshot,
        ]
    }
}

/// Decides the default verb from whether a session of the derived name is
/// alive.
pub fn plan_default(has_session: bool, canonical_dir: &str) -> (r: Vec<DefaultAction>)
    ensures
        action_views(r@) == spec_default_plan(has_session, canonical_dir@),
{
    let mut actions: Vec<DefaultAction> = Vec::new();
    if has_session {
        actions.push(DefaultAction::SwitchTo);
        proof {
            assert(action_views(actions@) =~= spec_default_plan(true, canonical_dir@));
        }
    } else {
        actions.push(
            DefaultAction::NewSession(
                NewSessionOpts { detached: true, path: Some(canonical_dir.to_owned()) },
            ),
        );
        actions.push(DefaultAction::RestoreBestEffort);
        actions.push(DefaultAction::SwitchTo);
        actions.push(DefaultAction::Snapshot);
        proof {
            assert(action_views(actions@) =~= spec_default_plan(false, canonical_dir@));
        }
    }
    actions
}

/// Law of dispatch: when the session already exists, the default verb
/// neither creates a session nor snapshots — it only switches over.
pub proof fn lemma_default_dispatch_existing(dir: Seq<char>)
    ensures
        forall|k: int|
            0 <= k < spec_default_plan(true, dir).len() ==> !((
            #[trigger] spec_default_plan(true, dir)[k]) is NewSession) && !(spec_default_plan(
                true,
                dir,
            )[k] is Snapshot),
        spec_default_plan(true, dir) == seq![DefaultActionView::SwitchTo],
{
}

} // verus!

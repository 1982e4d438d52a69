//! What the driver tells its caller, and what workers tell the scheduler.

use vstd::prelude::*;

use crate::article::{WorkItem, WorkTag};
use crate::error::FetchError;
use crate::span::Span;

verus! {

/// Outcome emitted by the driver for every terminal resolution of a work
/// item.
#[derive(Debug)]
pub enum FetchOutcome {
    /// Article fetched successfully. Caller assembles the bytes.
    Success { tag: WorkTag, server_id: String, bytes: Vec<u8>, article_bytes: u64 },
    /// Article could not be fetched from any server; given up on. Caller
    /// may decide to attempt par2 repair downstream.
    Failed { tag: WorkTag, last_error: Option<String> },
    /// The driver is shutting down and this article will not be attempted
    /// further. Emitted during graceful shutdown; caller should treat as
    /// a transient failure (not permanent).
    Cancelled { tag: WorkTag },
}

/// What a [`FetchOutcome`] says.
pub enum OutcomeView {
    Success { tag: WorkTag, server_id: Seq<char>, bytes: Seq<u8>, article_bytes: u64 },
    Failed { tag: WorkTag, last_error: Option<Seq<char>> },
    Cancelled { tag: WorkTag },
}

impl View for FetchOutcome {
    type V = OutcomeView;

    open spec fn view(&self) -> OutcomeView {
        match *self {
            FetchOutcome::Success { tag, server_id, bytes, article_bytes } => OutcomeView::Success {
                tag,
                server_id: server_id@,
                bytes: bytes@,
                article_bytes,
            },
            FetchOutcome::Failed { tag, last_error } => OutcomeView::Failed {
                tag,
                last_error: match last_error {
                    Some(text) => Some(text@),
                    None => None,
                },
            },
            FetchOutcome::Cancelled { tag } => OutcomeView::Cancelled { tag },
        }
    }
}

impl OutcomeView {
    /// The tag of the item that the outcome is about.
    pub open spec fn tag(self) -> WorkTag {
        match self {
            OutcomeView::Success { tag, .. } => tag,
            OutcomeView::Failed { tag, .. } => tag,
            OutcomeView::Cancelled { tag } => tag,
        }
    }
}

/// What a sequence of outcomes says.
pub open spec fn outcomes(emitted: Seq<FetchOutcome>) -> Seq<OutcomeView> {
    emitted.map_values(|outcome: FetchOutcome| outcome@)
}

/// What a worker returns to the scheduler, so that re-queue decisions,
/// penalties and outcomes are made in one place.
pub enum SchedulerMsg {
    /// One item was attempted on the server at position `server`.
    FetchResult { item: WorkItem, server: usize, result: Result<Vec<u8>, FetchError> },
    /// Worker hit a fatal error on connect or retired; items that hadn't
    /// been attempted yet get returned to the scheduler so they can be
    /// re-queued on other servers.
    ReturnUnattempted { items: Vec<WorkItem>, server: usize, error: String },
}

/// What an error costs the server that gave it.
#[derive(Debug, Clone, Copy)]
pub enum PenaltyAction {
    /// Nothing.
    NoPenalty,
    /// The server rests this long.
    Cooldown(Span),
    /// The failure counts against the server, which may have to rest this long.
    BadCons(Span),
}

/// What is to be done to the server that a message came from.
#[derive(Debug, Clone, Copy)]
pub enum HealthAction {
    /// Nothing.
    Nothing,
    /// Let it rest this long.
    ApplyPenalty(Span),
    /// Count a failure, for which it may have to rest this long.
    RegisterFailure(Span),
}

/// What a message costs its server: nothing for an article that arrived, the
/// penalty of the error for one that did not, and a failure with the default
/// penalty for items that were not attempted.
pub fn health_action(
    msg: &SchedulerMsg,
    penalty: PenaltyAction,
    default_penalty: Span,
) -> (action: HealthAction)
    ensures
        action == match *msg {
            SchedulerMsg::FetchResult { result: Ok(_), .. } => HealthAction::Nothing,
            SchedulerMsg::FetchResult { result: Err(_), .. } => match penalty {
                PenaltyAction::NoPenalty => HealthAction::Nothing,
                PenaltyAction::Cooldown(d) => HealthAction::ApplyPenalty(d),
                PenaltyAction::BadCons(d) => HealthAction::RegisterFailure(d),
            },
            SchedulerMsg::ReturnUnattempted { .. } => HealthAction::RegisterFailure(
                default_penalty,
            ),
        },
{
    match msg {
        SchedulerMsg::FetchResult { result, .. } => match result {
            Ok(_) => HealthAction::Nothing,
            Err(_) => match penalty {
                PenaltyAction::NoPenalty => HealthAction::Nothing,
                PenaltyAction::Cooldown(d) => HealthAction::ApplyPenalty(d),
                PenaltyAction::BadCons(d) => HealthAction::RegisterFailure(d),
            },
        },
        SchedulerMsg::ReturnUnattempted { .. } => HealthAction::RegisterFailure(default_penalty),
    }
}

} // verus!

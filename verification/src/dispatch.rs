//! Routing of inbound real-time commands: a direct lookup against the
//! small fixed set of known api paths. Dispatch errors are diagnostic
//! only; the connection that sent the command survives them.
use crate::registry::{apply_update, Registry};
use crate::text::str_eq;
use crate::wire::{parse_player_ids, spec_parse_player_ids, ApiRequest};
use vstd::prelude::*;

verus! {

/// Why an inbound command was refused.
#[derive(Clone, Copy, Debug, PartialEq, Eq, Structural)]
pub enum ApiError {
    /// The api path names no known command.
    UnknownPath,
    /// The parameter was present but did not parse as the command expects.
    InvalidParams,
    /// The command needs a parameter and none was given.
    NoParams,
    /// The calling identity has no live connection record.
    CallerNotFound,
}

/// The outcome a subscription-update command owes for a given parameter
/// and caller: which error comes on which input, and the exact new
/// subscriber relation on success.
pub open spec fn update_outcome(
    pre: Registry,
    post: Registry,
    r: Result<(), ApiError>,
    param: Option<String>,
    caller: i32,
) -> bool {
    match param {
        None => r == Err::<(), ApiError>(ApiError::NoParams) && post == pre,
        Some(p) => match spec_parse_player_ids(p@) {
            None => r == Err::<(), ApiError>(ApiError::InvalidParams) && post == pre,
            Some(targets) => {
                if pre.contains_id(caller) {
                    &&& r == Ok::<(), ApiError>(())
                    &&& post.rel() =~= apply_update(pre.rel(), caller, targets)
                    &&& post.versions() =~= pre.versions()
                } else {
                    r == Err::<(), ApiError>(ApiError::CallerNotFound) && post == pre
                }
            },
        },
    }
}

/// Applies a subscription-update command: parses the parameter into the
/// target identities and overwrites the caller's subscriptions with them.
pub fn update(req: ApiRequest, caller: i32, players: &mut Registry) -> (r: Result<(), ApiError>)
    requires
        old(players).wf(),
    ensures
        final(players).wf(),
        update_outcome(*old(players), *final(players), r, req.param, caller),
{
    let p = match req.param {
        Some(p) => p,
        None => {
            return Err(ApiError::NoParams);
        },
    };
    let targets = match parse_player_ids(p.as_str()) {
        Some(t) => t,
        None => {
            return Err(ApiError::InvalidParams);
        },
    };
    if players.apply_subscription_update(caller, &targets) {
        Ok(())
    } else {
        Err(ApiError::CallerNotFound)
    }
}

/// Dispatches one inbound command by its api path: subscription updates
/// go to the subscription manager, heartbeats succeed as no-ops, and any
/// other path is an unknown-command error.
pub fn execute(request: ApiRequest, caller: i32, players: &mut Registry) -> (r: Result<
    (),
    ApiError,
>)
    requires
        old(players).wf(),
    ensures
        final(players).wf(),
        request.api@ == "playerSubscriptions/v1/update"@ ==> update_outcome(
            *old(players),
            *final(players),
            r,
            request.param,
            caller,
        ),
        request.api@ == "heartbeat"@ ==> r == Ok::<(), ApiError>(()) && *final(players) == *old(
            players,
        ),
        request.api@ != "playerSubscriptions/v1/update"@ && request.api@ != "heartbeat"@ ==> r
            == Err::<(), ApiError>(ApiError::UnknownPath) && *final(players) == *old(players),
{
    proof {
        reveal_strlit("playerSubscriptions/v1/update");
        reveal_strlit("heartbeat");
        assert("playerSubscriptions/v1/update"@.len() != "heartbeat"@.len());
    }
    if str_eq(request.api.as_str(), "playerSubscriptions/v1/update") {
        update(request, caller, players)
    } else if str_eq(request.api.as_str(), "heartbeat") {
        Ok(())
    } else {
        Err(ApiError::UnknownPath)
    }
}

} // verus!

//! How a connection that a peer opens is taken: stage by stage, until the peer is let in or not.

use crate::auth::{admits, judge_auth, Auth, AuthResp, AuthRules};
use vstd::prelude::*;

verus! {

/// What a connection waits for.
#[derive(Clone, Copy, Debug, PartialEq, Eq, Structural)]
pub enum Stage {
    /// To be accepted.
    Accepting,
    /// To be established.
    Establishing,
    /// For the peer to open a pair of streams.
    Opening,
    /// For the request of the peer.
    Asking,
    /// For the answer to be sent.
    Answering(AuthResp),
}

/// What happens to a connection.
#[derive(Debug)]
pub enum AcceptEvent {
    /// What was waited for has come about.
    Done,
    /// The peer asked to be let in.
    Asked(Auth),
    /// What was waited for has failed.
    Failed,
}

/// What is done with a connection.
#[derive(Clone, Copy, Debug, PartialEq, Eq, Structural)]
pub enum AcceptAction {
    /// It waits for something else.
    Wait(Stage),
    /// Its peer is let in.
    Insert,
    /// It is given up.
    GiveUp,
}

/// Whether an event can happen in a stage.
pub open spec fn can_happen(stage: Stage, event: AcceptEvent) -> bool {
    match event {
        AcceptEvent::Failed => true,
        AcceptEvent::Asked(_) => stage is Asking,
        AcceptEvent::Done => !(stage is Asking),
    }
}

/// What is done with a connection after an event.
pub open spec fn accept_action(rules: AuthRules, stage: Stage, event: AcceptEvent) -> AcceptAction {
    match (stage, event) {
        (_, AcceptEvent::Failed) => AcceptAction::GiveUp,
        (Stage::Accepting, _) => AcceptAction::Wait(Stage::Establishing),
        (Stage::Establishing, _) => AcceptAction::Wait(Stage::Opening),
        (Stage::Opening, _) => AcceptAction::Wait(Stage::Asking),
        (Stage::Answering(AuthResp::Good), _) => AcceptAction::Insert,
        (Stage::Asking, AcceptEvent::Asked(auth)) if admits(rules, auth@) => AcceptAction::Wait(
            Stage::Answering(AuthResp::Good),
        ),
        (Stage::Asking, AcceptEvent::Asked(_)) => AcceptAction::Wait(
            Stage::Answering(AuthResp::Bad),
        ),
        _ => AcceptAction::GiveUp,
    }
}

/// What is done with a connection after an event.
pub fn accept_step(rules: &AuthRules, stage: Stage, event: &AcceptEvent) -> (action: AcceptAction)
    requires
        can_happen(stage, *event),
    ensures
        action == accept_action(*rules, stage, *event),
{
    match event {
        AcceptEvent::Failed => AcceptAction::GiveUp,
        AcceptEvent::Asked(auth) => AcceptAction::Wait(Stage::Answering(judge_auth(rules, auth))),
        AcceptEvent::Done => match stage {
            Stage::Accepting => AcceptAction::Wait(Stage::Establishing),
            Stage::Establishing => AcceptAction::Wait(Stage::Opening),
            Stage::Opening => AcceptAction::Wait(Stage::Asking),
            Stage::Answering(AuthResp::Good) => AcceptAction::Insert,
            _ => AcceptAction::GiveUp,
        },
    }
}

/// Whether a connection that stands in a stage comes, by these events, to have its peer let in.
pub open spec fn let_in(rules: AuthRules, stage: Stage, events: Seq<AcceptEvent>) -> bool
    decreases events.len(),
{
    if events.len() == 0 || !can_happen(stage, events[0]) {
        false
    } else {
        match accept_action(rules, stage, events[0]) {
            AcceptAction::Insert => true,
            AcceptAction::GiveUp => false,
            AcceptAction::Wait(next) => let_in(rules, next, events.drop_first()),
        }
    }
}

/// The peer of a new connection is let in exactly if the connection came to be, the peer asked
/// for it with what the rules call for, and was told that it is let in.
pub proof fn law_let_in_iff_admitted(rules: AuthRules, events: Seq<AcceptEvent>)
    ensures
        let_in(rules, Stage::Accepting, events) <==> {
            &&& events.len() >= 5
            &&& events[0] is Done
            &&& events[1] is Done
            &&& events[2] is Done
            &&& events[3] matches AcceptEvent::Asked(auth) && admits(rules, auth@)
            &&& events[4] is Done
        },
{
    reveal_with_fuel(let_in, 6);
}

/// A peer whose request the rules refuse is answered that it is refused, and not let in.
pub proof fn law_refused_is_told(rules: AuthRules, auth: Auth, event: AcceptEvent)
    requires
        !admits(rules, auth@),
    ensures
        accept_action(rules, Stage::Asking, AcceptEvent::Asked(auth)) == AcceptAction::Wait(
            Stage::Answering(AuthResp::Bad),
        ),
        accept_action(rules, Stage::Answering(AuthResp::Bad), event) == AcceptAction::GiveUp,
{
}

/// A peer whose request the rules admit is answered that it is let in, and is, once the answer
/// was sent.
pub proof fn law_admitted_is_told(rules: AuthRules, auth: Auth)
    requires
        admits(rules, auth@),
    ensures
        accept_action(rules, Stage::Asking, AcceptEvent::Asked(auth)) == AcceptAction::Wait(
            Stage::Answering(AuthResp::Good),
        ),
        accept_action(rules, Stage::Answering(AuthResp::Good), AcceptEvent::Done)
            == AcceptAction::Insert,
{
}

/// A connection goes through its stages in order, and a failure in any of them ends it; it has
/// its peer let in after no stage but a good answer that was sent.
pub proof fn law_stages_in_order(rules: AuthRules, stage: Stage, event: AcceptEvent)
    requires
        can_happen(stage, event),
    ensures
        event is Failed ==> accept_action(rules, stage, event) is GiveUp,
        event is Done && stage is Accepting ==> accept_action(rules, stage, event)
            == AcceptAction::Wait(Stage::Establishing),
        event is Done && stage is Establishing ==> accept_action(rules, stage, event)
            == AcceptAction::Wait(Stage::Opening),
        event is Done && stage is Opening ==> accept_action(rules, stage, event)
            == AcceptAction::Wait(Stage::Asking),
        accept_action(rules, stage, event) is Insert <==> event is Done && stage == Stage::Answering(
            AuthResp::Good,
        ),
        accept_action(rules, stage, event) is GiveUp <==> event is Failed || stage
            == Stage::Answering(AuthResp::Bad),
{
}

/// A peer that asks is answered that it is let in exactly if anybody is, or if it shows the
/// password that lets it in.
pub proof fn law_answer_goes_by_the_rules(rules: AuthRules, auth: Auth)
    ensures
        accept_action(rules, Stage::Asking, AcceptEvent::Asked(auth)) == AcceptAction::Wait(
            Stage::Answering(AuthResp::Good),
        ) <==> rules.anybody || (rules.password matches Some(allowed)
            && auth matches Auth::Password(shown) && shown@ == allowed@),
        accept_action(rules, Stage::Asking, AcceptEvent::Asked(auth)) == AcceptAction::Wait(
            Stage::Answering(AuthResp::Bad),
        ) || accept_action(rules, Stage::Asking, AcceptEvent::Asked(auth)) == AcceptAction::Wait(
            Stage::Answering(AuthResp::Good),
        ),
{
}

/// A request can come only where one is waited for, what else is waited for only elsewhere, and a
/// failure anywhere.
pub proof fn law_what_can_happen(stage: Stage, auth: Auth)
    ensures
        can_happen(stage, AcceptEvent::Failed),
        can_happen(stage, AcceptEvent::Asked(auth)) <==> stage is Asking,
        can_happen(stage, AcceptEvent::Done) <==> !(stage is Asking),
{
}

} // verus!

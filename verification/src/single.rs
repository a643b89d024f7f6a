//! The single-board move service: one move from the engine, checked against
//! the forbidden set, with a new session for each further attempt.

use crate::codec::{color_letter, CodecError};
use crate::framing::ReplyView;
use crate::service::{
    event_of, forbidden_move, forbidden_of, is_forbidden, one_more, ActionView, EventView,
    Outcome, ServiceAction, ServiceError, ServiceEvent,
};
use crate::session::{
    followed_by, genmove_line, genmove_script, move_views, setup_lines, MoveItem, DEFAULT_KOMI,
};
use vstd::prelude::*;

verus! {

/// How many moves the single-board service asks the engine for at most.
pub const SINGLE_ATTEMPTS: usize = 5;

/// A request for one move on one board.
pub struct AiGenmoveRequest {
    /// The size of the board: 7, 9, 13 or 19.
    pub board_size: u8,
    /// The side to move: "black" or "white".
    pub next_to_move: String,
    /// The history of the game, in order.
    pub moves: Vec<MoveItem>,
    /// The komi in ten-thousandths of a point; seven and a half points where
    /// there is none.
    pub komi: Option<i64>,
    /// The rules of the game, by name.
    pub rules: Option<String>,
    /// Positions, in internal notation, that the answer must avoid.
    pub forbidden: Option<Vec<String>>,
}

/// The answer to a request for one move.
pub struct AiGenmoveResponse {
    /// A coordinate in the protocol's notation, or "pass" or "resign".
    pub move_coord: String,
}

/// What the single-board service remembers between two events.
#[derive(Debug, Clone, Copy, PartialEq, Eq, Structural)]
pub struct GenmoveState {
    /// How many answers of the engine were of no use so far.
    pub attempts: usize,
}

/// The komi of a request.
pub open spec fn komi_of(komi: Option<i64>) -> int {
    match komi {
        Some(k) => k as int,
        None => DEFAULT_KOMI as int,
    }
}

/// The commands of one attempt: the position is set up and the side to move
/// is asked for a move.
pub open spec fn genmove_lines(req: AiGenmoveRequest) -> Result<Seq<Seq<char>>, CodecError> {
    followed_by(
        setup_lines(req.board_size, komi_of(req.komi), move_views(req.moves@)),
        seq![genmove_line(color_letter(req.next_to_move@))],
    )
}

/// What follows an answer that was of no use: when the ceiling is reached,
/// `exhausted`; before that, a new session and the same commands again.
pub open spec fn retry_or(req: AiGenmoveRequest, attempts: int, exhausted: ActionView) -> (
    int,
    ActionView,
) {
    if attempts + 1 >= SINGLE_ATTEMPTS {
        (one_more(attempts, SINGLE_ATTEMPTS as int), exhausted)
    } else {
        (
            attempts + 1,
            match genmove_lines(req) {
                Ok(lines) => ActionView::ReplaceAndRun(lines),
                Err(e) => ActionView::Fail(ServiceError::InvalidInput(e)),
            },
        )
    }
}

/// One step of the single-board service.
///
/// At the start the history is checked and the engine asked for a move. A
/// move that is not forbidden is returned as the engine gave it. A forbidden
/// move and an engine error each count as an attempt: at the fifth the
/// service returns "pass" after a forbidden move and fails after an engine
/// error; before that it asks for a new session and tries again.
pub open spec fn genmove_step(req: AiGenmoveRequest, attempts: int, event: EventView) -> (
    int,
    ActionView,
) {
    match event {
        EventView::Start => (
            attempts,
            match genmove_lines(req) {
                Ok(lines) => ActionView::Run(lines),
                Err(e) => ActionView::Fail(ServiceError::InvalidInput(e)),
            },
        ),
        EventView::Reply(r) => if is_forbidden(
            forbidden_of(req.forbidden),
            req.board_size,
            r.payload,
        ) {
            retry_or(req, attempts, ActionView::Return("pass"@))
        } else {
            (attempts, ActionView::Return(r.payload))
        },
        EventView::EngineError => retry_or(
            req,
            attempts,
            ActionView::Fail(ServiceError::EngineFailed),
        ),
    }
}

/// A whole run of the single-board service: it is stepped from `event` on,
/// each action that runs commands is answered by the next of `results` (a
/// reply of the engine, or `None` for an engine error), and the
/// replacements of the session are counted on top of `replaced`.
pub open spec fn genmove_run(
    req: AiGenmoveRequest,
    attempts: int,
    event: EventView,
    results: Seq<Option<ReplyView>>,
    replaced: nat,
) -> (Outcome, nat)
    decreases results.len(),
{
    let (next, action) = genmove_step(req, attempts, event);
    match action {
        ActionView::Return(m) => (Outcome::Returned(m), replaced),
        ActionView::Fail(e) => (Outcome::Failed(e), replaced),
        ActionView::Run(_) => if results.len() == 0 {
            (Outcome::Waiting, replaced)
        } else {
            genmove_run(req, next, event_of(results[0]), results.drop_first(), replaced)
        },
        ActionView::ReplaceAndRun(_) => if results.len() == 0 {
            (Outcome::Waiting, replaced + 1)
        } else {
            genmove_run(req, next, event_of(results[0]), results.drop_first(), replaced + 1)
        },
    }
}

/// With an empty forbidden set the first reply of the engine is returned as
/// it is, whatever it says, and no session is replaced.
pub proof fn lemma_first_reply_is_returned(
    req: AiGenmoveRequest,
    results: Seq<Option<ReplyView>>,
    reply: ReplyView,
)
    requires
        genmove_lines(req) is Ok,
        forbidden_of(req.forbidden).len() == 0,
        results.len() > 0,
        results[0] == Some(reply),
    ensures
        genmove_run(req, 0, EventView::Start, results, 0) == (
            Outcome::Returned(reply.payload),
            0nat,
        ),
{
    assert(!is_forbidden(forbidden_of(req.forbidden), req.board_size, reply.payload));
    assert(genmove_run(req, 0, event_of(results[0]), results.drop_first(), 0) == (
        Outcome::Returned(reply.payload),
        0nat,
    ));
}

/// When the first five replies of the engine are all forbidden moves, the
/// service returns "pass" and has replaced the session exactly four times.
pub proof fn lemma_five_forbidden_replies_pass(
    req: AiGenmoveRequest,
    results: Seq<Option<ReplyView>>,
)
    requires
        genmove_lines(req) is Ok,
        results.len() >= 5,
        forall|i: int|
            0 <= i < 5 ==> (#[trigger] results[i]) is Some && is_forbidden(
                forbidden_of(req.forbidden),
                req.board_size,
                results[i]->Some_0.payload,
            ),
    ensures
        genmove_run(req, 0, EventView::Start, results, 0) == (Outcome::Returned("pass"@), 4nat),
{
    let r1 = results.drop_first();
    let r2 = r1.drop_first();
    let r3 = r2.drop_first();
    let r4 = r3.drop_first();
    let r5 = r4.drop_first();
    assert(r1[0] == results[1]);
    assert(r2[0] == results[2]);
    assert(r3[0] == results[3]);
    assert(r4[0] == results[4]);
    assert(results[0] is Some);
    assert(genmove_run(req, 4, event_of(results[4]), r5, 4) == (
        Outcome::Returned("pass"@),
        4nat,
    ));
    assert(genmove_run(req, 3, event_of(results[3]), r4, 3) == (
        Outcome::Returned("pass"@),
        4nat,
    ));
    assert(genmove_run(req, 2, event_of(results[2]), r3, 2) == (
        Outcome::Returned("pass"@),
        4nat,
    ));
    assert(genmove_run(req, 1, event_of(results[1]), r2, 1) == (
        Outcome::Returned("pass"@),
        4nat,
    ));
    assert(genmove_run(req, 0, event_of(results[0]), r1, 0) == (
        Outcome::Returned("pass"@),
        4nat,
    ));
}

impl GenmoveState {
    /// The state of a request that has just come in.
    pub fn new() -> (s: GenmoveState)
        ensures
            s.attempts == 0,
    {
        GenmoveState { attempts: 0 }
    }
}

/// The commands of one attempt, as an action.
fn ask(req: &AiGenmoveRequest, replace: bool) -> (r: ServiceAction)
    ensures
        r@ == match genmove_lines(*req) {
            Ok(lines) => if replace {
                ActionView::ReplaceAndRun(lines)
            } else {
                ActionView::Run(lines)
            },
            Err(e) => ActionView::Fail(ServiceError::InvalidInput(e)),
        },
{
    let komi = match req.komi {
        Some(k) => k,
        None => DEFAULT_KOMI,
    };
    match genmove_script(req.board_size, komi, &req.moves, req.next_to_move.as_str()) {
        Ok(cmds) => if replace {
            ServiceAction::ReplaceAndRun(cmds)
        } else {
            ServiceAction::Run(cmds)
        },
        Err(e) => ServiceAction::Fail(ServiceError::InvalidInput(e)),
    }
}

/// What follows an answer that was of no use.
fn retry(req: &AiGenmoveRequest, state: GenmoveState, exhausted: ServiceAction) -> (r: (
    GenmoveState,
    ServiceAction,
))
    ensures
        (r.0.attempts as int, r.1@) == retry_or(*req, state.attempts as int, exhausted@),
{
    if state.attempts >= SINGLE_ATTEMPTS - 1 {
        let attempts = if state.attempts < SINGLE_ATTEMPTS {
            state.attempts + 1
        } else {
            state.attempts
        };
        (GenmoveState { attempts }, exhausted)
    } else {
        (GenmoveState { attempts: state.attempts + 1 }, ask(req, true))
    }
}

/// One step of the single-board service: from the state and what the caller
/// reports to the next state and what the caller is to do.
pub fn genmove_with_katago(req: &AiGenmoveRequest, state: GenmoveState, event: ServiceEvent) -> (r:
    (GenmoveState, ServiceAction))
    ensures
        (r.0.attempts as int, r.1@) == genmove_step(*req, state.attempts as int, event@),
{
    match event {
        ServiceEvent::Start => (state, ask(req, false)),
        ServiceEvent::Reply(reply) => {
            if forbidden_move(&req.forbidden, req.board_size, reply.payload.as_str()) {
                retry(req, state, ServiceAction::Return("pass".to_owned()))
            } else {
                (state, ServiceAction::Return(reply.payload))
            }
        },
        ServiceEvent::EngineError => retry(
            req,
            state,
            ServiceAction::Fail(ServiceError::EngineFailed),
        ),
    }
}

/// What a finished action answers the request with: the move, or the error;
/// `None` while the action asks for more work.
pub fn genmove_response(action: &ServiceAction) -> (r: Option<
    Result<AiGenmoveResponse, ServiceError>,
>)
    ensures
        match action@ {
            ActionView::Return(m) => r is Some && r->Some_0 is Ok && r->Some_0->Ok_0.move_coord@
                == m,
            ActionView::Fail(e) => r == Some(Err::<AiGenmoveResponse, ServiceError>(e)),
            _ => r is None,
        },
{
    match action {
        ServiceAction::Return(m) => Some(Ok(AiGenmoveResponse { move_coord: m.clone() })),
        ServiceAction::Fail(e) => Some(Err(*e)),
        _ => None,
    }
}

} // verus!

//! What the two move services share: the events that the caller reports, the
//! actions that it is asked for, and the rule for forbidden moves.
//!
//! A service never touches the engine. The caller starts with
//! `ServiceEvent::Start`, performs each action that comes back, and reports
//! what happened, until the action is `Return` or `Fail`.

use crate::codec::{gtp_to_xy, gtp_to_xy_spec, is_pass_or_resign, CodecError};
use crate::framing::{Reply, ReplyView};
use crate::text::{chars_of, is_text, texts};
use vstd::prelude::*;

verus! {

/// Why a service gave up.
#[derive(Debug, Clone, Copy, PartialEq, Eq, Structural)]
pub enum ServiceError {
    /// A move of a history is no position on the board.
    InvalidInput(CodecError),
    /// The single-board service ran out of attempts on engine errors.
    EngineFailed,
    /// The dual-board service ran out of attempts without a scored candidate.
    DualEngineFailed,
}

impl ServiceError {
    /// The message that goes with the error.
    pub fn message(&self) -> (s: &'static str)
        ensures
            s@ == match *self {
                ServiceError::InvalidInput(e) => e.message_spec(),
                ServiceError::EngineFailed => "katago failed"@,
                ServiceError::DualEngineFailed => "katago dual-genmove failed"@,
            },
    {
        match self {
            ServiceError::InvalidInput(e) => e.message(),
            ServiceError::EngineFailed => "katago failed",
            ServiceError::DualEngineFailed => "katago dual-genmove failed",
        }
    }
}

/// What the caller reports to a service.
pub enum ServiceEvent {
    /// The request has come in; nothing has been done yet.
    Start,
    /// The commands of the last action were run, each with its reply; this is
    /// the reply to the last of them.
    Reply(Reply),
    /// The last action failed on the engine's side: the stream closed or an
    /// input or output error came up.
    EngineError,
}

/// The mathematical content of a `ServiceEvent`.
pub ghost enum EventView {
    Start,
    Reply(ReplyView),
    EngineError,
}

impl View for ServiceEvent {
    type V = EventView;

    open spec fn view(&self) -> EventView {
        match self {
            ServiceEvent::Start => EventView::Start,
            ServiceEvent::Reply(r) => EventView::Reply(r@),
            ServiceEvent::EngineError => EventView::EngineError,
        }
    }
}

/// What a service asks of the caller.
pub enum ServiceAction {
    /// Run these commands on the session, each followed by its reply, and
    /// report the reply to the last one.
    Run(Vec<String>),
    /// Replace the session by a new one, then run these commands on it.
    ReplaceAndRun(Vec<String>),
    /// The request is answered with this move.
    Return(String),
    /// The request has failed.
    Fail(ServiceError),
}

/// The mathematical content of a `ServiceAction`.
pub ghost enum ActionView {
    Run(Seq<Seq<char>>),
    ReplaceAndRun(Seq<Seq<char>>),
    Return(Seq<char>),
    Fail(ServiceError),
}

impl View for ServiceAction {
    type V = ActionView;

    open spec fn view(&self) -> ActionView {
        match self {
            ServiceAction::Run(c) => ActionView::Run(texts(c@)),
            ServiceAction::ReplaceAndRun(c) => ActionView::ReplaceAndRun(texts(c@)),
            ServiceAction::Return(m) => ActionView::Return(m@),
            ServiceAction::Fail(e) => ActionView::Fail(*e),
        }
    }
}

/// How a run of a service ended, as far as the engine's replies reached.
pub ghost enum Outcome {
    /// The request was answered with this move.
    Returned(Seq<char>),
    /// The request failed.
    Failed(ServiceError),
    /// The service asked for more than the engine's replies at hand.
    Waiting,
}

/// The event that reports one result of the engine: a reply, or `None` for
/// an error.
pub open spec fn event_of(result: Option<ReplyView>) -> EventView {
    match result {
        Some(r) => EventView::Reply(r),
        None => EventView::EngineError,
    }
}

/// The forbidden set of a request, empty where it names none.
pub open spec fn forbidden_of(forbidden: Option<Vec<String>>) -> Seq<Seq<char>> {
    match forbidden {
        Some(f) => texts(f@),
        None => Seq::empty(),
    }
}

/// Whether the engine's move `coord` is forbidden: it is a position on the
/// board whose internal notation is in the forbidden set. A pass, a
/// resignation and whatever cannot be read as a position are never
/// forbidden.
pub open spec fn is_forbidden(forbidden: Seq<Seq<char>>, size: u8, coord: Seq<char>) -> bool {
    match gtp_to_xy_spec(coord, size) {
        Ok(xy) => !is_pass_or_resign(xy) && forbidden.contains(xy),
        Err(_) => false,
    }
}

/// The number of attempts after one more, counted up to `ceiling`.
pub open spec fn one_more(attempts: int, ceiling: int) -> int {
    if attempts < ceiling {
        attempts + 1
    } else {
        attempts
    }
}

/// Whether `list` holds the text `t`.
pub fn holds_text(list: &Vec<String>, t: &String) -> (r: bool)
    ensures
        r == texts(list@).contains(t@),
{
    let mut i: usize = 0;
    while i < list.len()
        invariant
            i <= list.len(),
            forall|k: int| 0 <= k < i ==> texts(list@)[k] != t@,
        decreases list.len() - i,
    {
        assert(texts(list@)[i as int] == list[i as int]@);
        if list[i] == *t {
            return true;
        }
        i += 1;
    }
    false
}

/// Whether the engine's move `coord` is forbidden on a board of `size`.
pub fn forbidden_move(forbidden: &Option<Vec<String>>, size: u8, coord: &str) -> (r: bool)
    ensures
        r == is_forbidden(forbidden_of(*forbidden), size, coord@),
{
    match forbidden {
        None => {
            assert(forall|t: Seq<char>| !Seq::<Seq<char>>::empty().contains(t));
            false
        },
        Some(list) => match gtp_to_xy(coord, size) {
            Err(_) => false,
            Ok(xy) => {
                let c = chars_of(xy.as_str());
                if is_text(&c, "PASS") || is_text(&c, "RESIGN") {
                    false
                } else {
                    holds_text(list, &xy)
                }
            },
        },
    }
}

} // verus!

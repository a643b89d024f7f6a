//! The dual-board move service: candidates from the first board, each valued
//! on the second, and the one chosen that serves both boards best.

use crate::analysis::{
    best_candidates, candidate_from_answer, candidate_views, candidates_from_info,
    copy_candidate, evaluation_from_info, plain_candidate, reply_value, special_value,
    value_of_special, Candidate, CandidateView, Evaluation,
};
use crate::codec::{color_letter, metric_of, parse_metric, CodecError, Metric};
use crate::service::{
    event_of, forbidden_move, forbidden_of, is_forbidden, one_more, ActionView, EventView,
    Outcome, ServiceAction, ServiceError, ServiceEvent,
};
use crate::session::{
    analysis_script, analyze_line, evaluation_script, evaluation_tail, followed_by,
    genmove_line, genmove_script, move_views, setup_lines, setup_position, text_view, MoveItem,
    DEFAULT_KOMI,
};
use crate::single::komi_of;
use crate::framing::ReplyView;
use vstd::prelude::*;

verus! {

/// How many analyses the dual-board service starts at most.
pub const DUAL_ATTEMPTS: usize = 3;

/// The win rate, in millionths, that a move must reach on both boards to
/// count when score leads are compared.
pub const WINRATE_FLOOR: i64 = 350_000;

/// How many candidates are considered where the request names no number.
pub const DEFAULT_BREADTH: usize = 8;

/// The largest number of candidates that is considered.
pub const MAX_BREADTH: usize = 20;

/// A request for one move that is played on two boards at once.
pub struct AiDualGenmoveRequest {
    /// The size of both boards.
    pub board_size: u8,
    /// The side to move: "black" or "white".
    pub next_to_move: String,
    /// The history of the first board.
    pub board_a_moves: Vec<MoveItem>,
    /// The history of the second board.
    pub board_b_moves: Vec<MoveItem>,
    /// The komi in ten-thousandths of a point; seven and a half points where
    /// there is none.
    pub komi: Option<i64>,
    /// The rules of the game, by name.
    pub rules: Option<String>,
    /// Positions, in internal notation, that the answer must avoid.
    pub forbidden: Option<Vec<String>>,
    /// How many candidates of the first board to consider.
    pub k: Option<usize>,
    /// The metric: "winrate", or anything else for the score lead.
    pub metric: Option<String>,
}

/// The answer to a request for a move on two boards.
pub struct AiDualGenmoveResponse {
    /// A coordinate in the protocol's notation, or "pass" or "resign".
    pub move_coord: String,
}

/// What the dual-board service is waiting for.
#[derive(Debug, Clone, Copy, PartialEq, Eq, Structural)]
pub enum DualPhase {
    /// Nothing: no action is under way.
    Idle,
    /// The analysis of the first board.
    Analysing,
    /// A plain move for the first board, after an analysis without
    /// candidates.
    Asking,
    /// The value of the next candidate on the second board.
    Evaluating,
}

/// What the dual-board service remembers between two events.
pub struct DualState {
    /// How many analyses came to nothing so far.
    pub attempts: usize,
    /// What the service is waiting for.
    pub phase: DualPhase,
    /// The candidates that passed the forbidden set, best-visited first.
    pub candidates: Vec<Candidate>,
    /// The values on the second board of the first candidates, in order.
    pub evaluations: Vec<Evaluation>,
}

/// The mathematical content of a `DualState`.
pub ghost struct DualStateView {
    pub attempts: int,
    pub phase: DualPhase,
    pub candidates: Seq<CandidateView>,
    pub evaluations: Seq<Evaluation>,
}

impl View for DualState {
    type V = DualStateView;

    open spec fn view(&self) -> DualStateView {
        DualStateView {
            attempts: self.attempts as int,
            phase: self.phase,
            candidates: candidate_views(self.candidates@),
            evaluations: self.evaluations@,
        }
    }
}

/// The number of candidates to consider: what the request names, or eight,
/// but at least one and at most twenty.
pub open spec fn breadth_of(k: Option<usize>) -> int {
    let n = match k {
        Some(n) => n as int,
        None => DEFAULT_BREADTH as int,
    };
    if n < 1 {
        1
    } else if n > MAX_BREADTH {
        MAX_BREADTH as int
    } else {
        n
    }
}

/// The candidates that are not forbidden, in their order.
pub open spec fn kept(cands: Seq<CandidateView>, forbidden: Seq<Seq<char>>, size: u8) -> Seq<
    CandidateView,
>
    decreases cands.len(),
{
    if cands.len() == 0 {
        Seq::empty()
    } else if is_forbidden(forbidden, size, cands.last().mv) {
        kept(cands.drop_last(), forbidden, size)
    } else {
        kept(cands.drop_last(), forbidden, size).push(cands.last())
    }
}

/// How many candidates have their value on the second board.
pub open spec fn pair_count(cands: Seq<CandidateView>, evals: Seq<Evaluation>) -> int {
    if cands.len() <= evals.len() {
        cands.len() as int
    } else {
        evals.len() as int
    }
}

/// What candidate `j` is worth on both boards together: by win rate, the
/// lower of its two win rates; by score lead, the sum of its two leads.
pub open spec fn score_at(
    metric: Metric,
    cands: Seq<CandidateView>,
    evals: Seq<Evaluation>,
    j: int,
) -> int {
    match metric {
        Metric::Winrate => if cands[j].metric <= evals[j].metric {
            cands[j].metric
        } else {
            evals[j].metric as int
        },
        Metric::ScoreLead => cands[j].metric + evals[j].metric,
    }
}

/// Whether candidate `j` reaches the floor of the win rate on both boards.
pub open spec fn clears_floor(cands: Seq<CandidateView>, evals: Seq<Evaluation>, j: int) -> bool {
    cands[j].winrate >= WINRATE_FLOOR && evals[j].winrate >= WINRATE_FLOOR
}

/// Whether some candidate reaches the floor on both boards.
pub open spec fn any_clears(cands: Seq<CandidateView>, evals: Seq<Evaluation>) -> bool {
    exists|j: int| 0 <= j < pair_count(cands, evals) && clears_floor(cands, evals, j)
}

/// Whether candidate `j` may be chosen: by win rate, every candidate may; by
/// score lead, only those that reach the floor, unless none does.
pub open spec fn eligible(
    metric: Metric,
    cands: Seq<CandidateView>,
    evals: Seq<Evaluation>,
    j: int,
) -> bool {
    match metric {
        Metric::Winrate => true,
        Metric::ScoreLead => !any_clears(cands, evals) || clears_floor(cands, evals, j),
    }
}

/// Whether `b` is the candidate to choose: it may be chosen, none that may
/// be chosen is worth more, and none before it is worth as much.
pub open spec fn is_choice(
    metric: Metric,
    cands: Seq<CandidateView>,
    evals: Seq<Evaluation>,
    b: int,
) -> bool {
    &&& 0 <= b < pair_count(cands, evals)
    &&& eligible(metric, cands, evals, b)
    &&& forall|j: int|
        0 <= j < pair_count(cands, evals) && #[trigger] eligible(metric, cands, evals, j)
            ==> score_at(metric, cands, evals, j) <= score_at(metric, cands, evals, b)
    &&& forall|j: int|
        0 <= j < b && #[trigger] eligible(metric, cands, evals, j) ==> score_at(
            metric,
            cands,
            evals,
            j,
        ) < score_at(metric, cands, evals, b)
}

/// The candidate to choose, if there is any candidate.
pub open spec fn choice(metric: Metric, cands: Seq<CandidateView>, evals: Seq<Evaluation>)
    -> Option<int> {
    if exists|b: int| is_choice(metric, cands, evals, b) {
        Some(choose|b: int| is_choice(metric, cands, evals, b))
    } else {
        None
    }
}

/// There is at most one candidate to choose.
pub proof fn lemma_choice_is_unique(
    metric: Metric,
    cands: Seq<CandidateView>,
    evals: Seq<Evaluation>,
    a: int,
    b: int,
)
    requires
        is_choice(metric, cands, evals, a),
        is_choice(metric, cands, evals, b),
    ensures
        a == b,
{
    if a < b {
        assert(eligible(metric, cands, evals, a));
        assert(score_at(metric, cands, evals, a) < score_at(metric, cands, evals, b));
        assert(score_at(metric, cands, evals, b) <= score_at(metric, cands, evals, a));
    } else if b < a {
        assert(eligible(metric, cands, evals, b));
        assert(score_at(metric, cands, evals, b) < score_at(metric, cands, evals, a));
        assert(score_at(metric, cands, evals, a) <= score_at(metric, cands, evals, b));
    }
}

/// By score lead, a candidate below the floor on either board is chosen only
/// if no candidate reaches the floor on both: while one does, the chosen
/// candidate reaches it too, however high the summed lead of another.
pub proof fn lemma_floor_is_kept(cands: Seq<CandidateView>, evals: Seq<Evaluation>, b: int)
    requires
        choice(Metric::ScoreLead, cands, evals) == Some(b),
        any_clears(cands, evals),
    ensures
        clears_floor(cands, evals, b),
{
    assert(is_choice(Metric::ScoreLead, cands, evals, b));
}

/// By win rate, the chosen candidate has the highest lower win rate of all.
pub proof fn lemma_winrate_choice_is_best(
    cands: Seq<CandidateView>,
    evals: Seq<Evaluation>,
    b: int,
    j: int,
)
    requires
        choice(Metric::Winrate, cands, evals) == Some(b),
        0 <= j < pair_count(cands, evals),
    ensures
        score_at(Metric::Winrate, cands, evals, j) <= score_at(Metric::Winrate, cands, evals, b),
{
    assert(is_choice(Metric::Winrate, cands, evals, b));
    assert(eligible(Metric::Winrate, cands, evals, j));
}

/// The number of candidates to consider.
pub fn breadth(k: Option<usize>) -> (n: usize)
    ensures
        n == breadth_of(k),
{
    let n = match k {
        Some(n) => n,
        None => DEFAULT_BREADTH,
    };
    if n < 1 {
        1
    } else if n > MAX_BREADTH {
        MAX_BREADTH
    } else {
        n
    }
}

/// Drops the forbidden candidates.
pub fn keep_allowed(cands: &Vec<Candidate>, forbidden: &Option<Vec<String>>, size: u8) -> (r: Vec<
    Candidate,
>)
    ensures
        candidate_views(r@) == kept(candidate_views(cands@), forbidden_of(*forbidden), size),
{
    let mut r: Vec<Candidate> = Vec::new();
    let mut i: usize = 0;
    let ghost all = candidate_views(cands@);
    let ghost f = forbidden_of(*forbidden);
    assert(all.take(0) =~= Seq::<CandidateView>::empty());
    assert(candidate_views(r@) =~= Seq::<CandidateView>::empty());
    while i < cands.len()
        invariant
            i <= cands.len(),
            all == candidate_views(cands@),
            f == forbidden_of(*forbidden),
            candidate_views(r@) == kept(all.take(i as int), f, size),
        decreases cands.len() - i,
    {
        assert(all.take(i + 1).drop_last() =~= all.take(i as int));
        assert(all.take(i + 1).last() == cands[i as int]@);
        if !forbidden_move(forbidden, size, cands[i].mv.as_str()) {
            let ghost before = candidate_views(r@);
            let c = copy_candidate(&cands[i]);
            r.push(c);
            assert(candidate_views(r@) =~= before.push(c@));
        }
        i += 1;
    }
    assert(all.take(cands.len() as int) =~= all);
    r
}

/// What candidate `j` is worth on both boards together.
fn score(metric: Metric, cands: &Vec<Candidate>, evals: &Vec<Evaluation>, j: usize) -> (s: i128)
    requires
        j < cands.len(),
        j < evals.len(),
    ensures
        s == score_at(metric, candidate_views(cands@), evals@, j as int),
{
    match metric {
        Metric::Winrate => if cands[j].metric <= evals[j].metric {
            cands[j].metric as i128
        } else {
            evals[j].metric as i128
        },
        Metric::ScoreLead => cands[j].metric as i128 + evals[j].metric as i128,
    }
}

/// Whether candidate `j` reaches the floor of the win rate on both boards.
fn reaches_floor(cands: &Vec<Candidate>, evals: &Vec<Evaluation>, j: usize) -> (r: bool)
    requires
        j < cands.len(),
        j < evals.len(),
    ensures
        r == clears_floor(candidate_views(cands@), evals@, j as int),
{
    cands[j].winrate >= WINRATE_FLOOR && evals[j].winrate >= WINRATE_FLOOR
}

/// Chooses among the candidates, each with its value on the second board at
/// the same index: the index of the candidate that serves both boards best,
/// the first of them where several do; `None` only where there is no
/// candidate with a value.
pub fn choose_candidate(metric: Metric, cands: &Vec<Candidate>, evals: &Vec<Evaluation>) -> (r:
    Option<usize>)
    ensures
        match r {
            Some(b) => choice(metric, candidate_views(cands@), evals@) == Some(b as int),
            None => choice(metric, candidate_views(cands@), evals@) is None,
        },
        r is None <==> pair_count(candidate_views(cands@), evals@) == 0,
{
    let ghost cv = candidate_views(cands@);
    let ghost ev = evals@;
    let n: usize = if cands.len() <= evals.len() {
        cands.len()
    } else {
        evals.len()
    };
    let mut any: bool = false;
    let mut i: usize = 0;
    while i < n
        invariant
            i <= n,
            n == pair_count(cv, ev),
            cv == candidate_views(cands@),
            ev == evals@,
            any <==> exists|j: int| 0 <= j < i && clears_floor(cv, ev, j),
        decreases n - i,
    {
        if reaches_floor(cands, evals, i) {
            any = true;
        }
        i += 1;
    }
    assert(any == any_clears(cv, ev));
    let mut best: Option<usize> = None;
    let mut best_score: i128 = 0;
    let mut i: usize = 0;
    while i < n
        invariant
            i <= n,
            n == pair_count(cv, ev),
            cv == candidate_views(cands@),
            ev == evals@,
            any == any_clears(cv, ev),
            match best {
                Some(b) => {
                    &&& b < i
                    &&& eligible(metric, cv, ev, b as int)
                    &&& best_score == score_at(metric, cv, ev, b as int)
                    &&& forall|j: int|
                        0 <= j < i && #[trigger] eligible(metric, cv, ev, j) ==> score_at(
                            metric,
                            cv,
                            ev,
                            j,
                        ) <= best_score
                    &&& forall|j: int|
                        0 <= j < b && #[trigger] eligible(metric, cv, ev, j) ==> score_at(
                            metric,
                            cv,
                            ev,
                            j,
                        ) < best_score
                },
                None => forall|j: int| 0 <= j < i ==> !#[trigger] eligible(metric, cv, ev, j),
            },
        decreases n - i,
    {
        let ok = match metric {
            Metric::Winrate => true,
            Metric::ScoreLead => !any || reaches_floor(cands, evals, i),
        };
        if ok {
            let s = score(metric, cands, evals, i);
            match best {
                None => {
                    best = Some(i);
                    best_score = s;
                },
                Some(_) => {
                    if s > best_score {
                        best = Some(i);
                        best_score = s;
                    }
                },
            }
        }
        i += 1;
    }
    proof {
        match best {
            Some(b) => {
                assert(is_choice(metric, cv, ev, b as int));
                let c = choose|c: int| is_choice(metric, cv, ev, c);
                lemma_choice_is_unique(metric, cv, ev, b as int, c);
            },
            None => {
                assert forall|b: int| !is_choice(metric, cv, ev, b) by {
                    if 0 <= b < n {
                        assert(!eligible(metric, cv, ev, b));
                    }
                }
                if n > 0 {
                    lemma_some_is_eligible(metric, cv, ev);
                }
            },
        }
    }
    best
}

/// Where there is a candidate with a value, one may be chosen.
pub proof fn lemma_some_is_eligible(
    metric: Metric,
    cands: Seq<CandidateView>,
    evals: Seq<Evaluation>,
)
    requires
        pair_count(cands, evals) > 0,
    ensures
        exists|j: int|
            0 <= j < pair_count(cands, evals) && #[trigger] eligible(metric, cands, evals, j),
{
    if metric == Metric::ScoreLead && any_clears(cands, evals) {
        let j = choose|j: int| 0 <= j < pair_count(cands, evals) && clears_floor(cands, evals, j);
        assert(eligible(metric, cands, evals, j));
    } else {
        assert(eligible(metric, cands, evals, 0));
    }
}

/// The metric of a request.
pub open spec fn dual_metric(req: AiDualGenmoveRequest) -> Metric {
    metric_of(text_view(req.metric))
}

/// The commands that analyse the first board for the side to move.
pub open spec fn analysis_lines(req: AiDualGenmoveRequest) -> Result<Seq<Seq<char>>, CodecError> {
    followed_by(
        setup_lines(req.board_size, komi_of(req.komi), move_views(req.board_a_moves@)),
        seq![analyze_line(color_letter(req.next_to_move@))],
    )
}

/// The commands that ask for a plain move on the first board.
pub open spec fn plain_lines(req: AiDualGenmoveRequest) -> Result<Seq<Seq<char>>, CodecError> {
    followed_by(
        setup_lines(req.board_size, komi_of(req.komi), move_views(req.board_a_moves@)),
        seq![genmove_line(color_letter(req.next_to_move@))],
    )
}

/// The commands that set up the second board.
pub open spec fn second_board_lines(req: AiDualGenmoveRequest) -> Result<
    Seq<Seq<char>>,
    CodecError,
> {
    setup_lines(req.board_size, komi_of(req.komi), move_views(req.board_b_moves@))
}

/// The commands that value `candidate` on the second board.
pub open spec fn evaluation_lines(req: AiDualGenmoveRequest, candidate: Seq<char>) -> Result<
    Seq<Seq<char>>,
    CodecError,
> {
    followed_by(second_board_lines(req), evaluation_tail(req.next_to_move@, candidate))
}

/// The state in which nothing is under way.
pub open spec fn at_rest(attempts: int) -> DualStateView {
    DualStateView {
        attempts: attempts,
        phase: DualPhase::Idle,
        candidates: Seq::empty(),
        evaluations: Seq::empty(),
    }
}

/// The state while `phase` is under way with nothing gathered yet.
pub open spec fn waiting(attempts: int, phase: DualPhase) -> DualStateView {
    DualStateView {
        attempts: attempts,
        phase: phase,
        candidates: Seq::empty(),
        evaluations: Seq::empty(),
    }
}

/// What follows an analysis that came to nothing: at the third the service
/// fails; before that it asks for a new session and analyses again.
pub open spec fn dual_retry(req: AiDualGenmoveRequest, attempts: int) -> (
    DualStateView,
    ActionView,
) {
    if attempts + 1 >= DUAL_ATTEMPTS {
        (
            at_rest(one_more(attempts, DUAL_ATTEMPTS as int)),
            ActionView::Fail(ServiceError::DualEngineFailed),
        )
    } else {
        match analysis_lines(req) {
            Ok(lines) => (
                waiting(attempts + 1, DualPhase::Analysing),
                ActionView::ReplaceAndRun(lines),
            ),
            Err(e) => (at_rest(attempts + 1), ActionView::Fail(ServiceError::InvalidInput(e))),
        }
    }
}

/// What follows once `evals` holds the values of the first candidates: the
/// next candidate is valued on the second board; when all have their value,
/// the chosen one is returned.
pub open spec fn dual_evaluate(
    req: AiDualGenmoveRequest,
    attempts: int,
    cands: Seq<CandidateView>,
    evals: Seq<Evaluation>,
) -> (DualStateView, ActionView) {
    if evals.len() < cands.len() {
        match evaluation_lines(req, cands[evals.len() as int].mv) {
            Ok(lines) => (
                DualStateView {
                    attempts: attempts,
                    phase: DualPhase::Evaluating,
                    candidates: cands,
                    evaluations: evals,
                },
                ActionView::Run(lines),
            ),
            Err(e) => (at_rest(attempts), ActionView::Fail(ServiceError::InvalidInput(e))),
        }
    } else {
        match choice(dual_metric(req), cands, evals) {
            Some(b) => (at_rest(attempts), ActionView::Return(cands[b].mv)),
            None => dual_retry(req, attempts),
        }
    }
}

/// What follows the candidates of the first board: those that are forbidden
/// are dropped; if none is left the service returns "pass" at once; else the
/// candidates are valued one by one.
pub open spec fn dual_proceed(req: AiDualGenmoveRequest, attempts: int, cands: Seq<CandidateView>)
    -> (DualStateView, ActionView) {
    let allowed = kept(cands, forbidden_of(req.forbidden), req.board_size);
    if allowed.len() == 0 {
        (at_rest(attempts), ActionView::Return("pass"@))
    } else {
        dual_evaluate(req, attempts, allowed, Seq::empty())
    }
}

/// One step of the dual-board service.
///
/// At the start both histories are checked and the first board is analysed.
/// The reply to the analysis gives the candidates; if it gives none, a plain
/// move is asked for and stands as the only candidate. Each reply to an
/// evaluation gives the value of one candidate on the second board, where a
/// pass and a resignation have their fixed values. An engine error, and a
/// reply that nothing waits for, count as an analysis that came to nothing.
pub open spec fn dual_step(req: AiDualGenmoveRequest, state: DualStateView, event: EventView) -> (
    DualStateView,
    ActionView,
) {
    match event {
        EventView::Start => match analysis_lines(req) {
            Err(e) => (at_rest(state.attempts), ActionView::Fail(ServiceError::InvalidInput(e))),
            Ok(lines) => match second_board_lines(req) {
                Err(e) => (
                    at_rest(state.attempts),
                    ActionView::Fail(ServiceError::InvalidInput(e)),
                ),
                Ok(_) => (waiting(state.attempts, DualPhase::Analysing), ActionView::Run(lines)),
            },
        },
        EventView::EngineError => dual_retry(req, state.attempts),
        EventView::Reply(r) => match state.phase {
            DualPhase::Idle => dual_retry(req, state.attempts),
            DualPhase::Analysing => {
                let cands = best_candidates(r.info, breadth_of(req.k), dual_metric(req));
                if cands.len() == 0 {
                    match plain_lines(req) {
                        Ok(lines) => (
                            waiting(state.attempts, DualPhase::Asking),
                            ActionView::Run(lines),
                        ),
                        Err(e) => (
                            at_rest(state.attempts),
                            ActionView::Fail(ServiceError::InvalidInput(e)),
                        ),
                    }
                } else {
                    dual_proceed(req, state.attempts, cands)
                }
            },
            DualPhase::Asking => dual_proceed(
                req,
                state.attempts,
                seq![plain_candidate(r.payload, dual_metric(req))],
            ),
            DualPhase::Evaluating => if state.evaluations.len() < state.candidates.len() {
                let mv = state.candidates[state.evaluations.len() as int].mv;
                let value = match special_value(mv, dual_metric(req)) {
                    Some(v) => v,
                    None => reply_value(r.info, dual_metric(req)),
                };
                dual_evaluate(req, state.attempts, state.candidates, state.evaluations.push(value))
            } else {
                dual_retry(req, state.attempts)
            },
        },
    }
}

/// A whole run of the dual-board service: it is stepped from `event` on,
/// each action that runs commands is answered by the next of `results` (a
/// reply of the engine, or `None` for an engine error), and the
/// replacements of the session are counted on top of `replaced`.
pub open spec fn dual_run(
    req: AiDualGenmoveRequest,
    state: DualStateView,
    event: EventView,
    results: Seq<Option<ReplyView>>,
    replaced: nat,
) -> (Outcome, nat)
    decreases results.len(),
{
    let (next, action) = dual_step(req, state, event);
    match action {
        ActionView::Return(m) => (Outcome::Returned(m), replaced),
        ActionView::Fail(e) => (Outcome::Failed(e), replaced),
        ActionView::Run(_) => if results.len() == 0 {
            (Outcome::Waiting, replaced)
        } else {
            dual_run(req, next, event_of(results[0]), results.drop_first(), replaced)
        },
        ActionView::ReplaceAndRun(_) => if results.len() == 0 {
            (Outcome::Waiting, replaced + 1)
        } else {
            dual_run(req, next, event_of(results[0]), results.drop_first(), replaced + 1)
        },
    }
}

/// When the forbidden set takes every candidate of the analysis, the service
/// returns "pass" at once and replaces no session.
pub proof fn lemma_dead_end_passes(
    req: AiDualGenmoveRequest,
    results: Seq<Option<ReplyView>>,
    reply: ReplyView,
)
    requires
        analysis_lines(req) is Ok,
        second_board_lines(req) is Ok,
        results.len() > 0,
        results[0] == Some(reply),
        best_candidates(reply.info, breadth_of(req.k), dual_metric(req)).len() > 0,
        kept(
            best_candidates(reply.info, breadth_of(req.k), dual_metric(req)),
            forbidden_of(req.forbidden),
            req.board_size,
        ).len() == 0,
    ensures
        dual_run(req, at_rest(0), EventView::Start, results, 0) == (
            Outcome::Returned("pass"@),
            0nat,
        ),
{
    let started = waiting(0, DualPhase::Analysing);
    assert(dual_step(req, at_rest(0), EventView::Start).0 == started);
    assert(dual_step(req, started, event_of(results[0])).1 == ActionView::Return("pass"@));
    assert(dual_run(req, started, event_of(results[0]), results.drop_first(), 0) == (
        Outcome::Returned("pass"@),
        0nat,
    ));
}

/// The service fails for want of a scored candidate only at its third
/// analysis that came to nothing: with two replacements behind it.
pub proof fn lemma_three_engine_errors_fail(
    req: AiDualGenmoveRequest,
    results: Seq<Option<ReplyView>>,
)
    requires
        analysis_lines(req) is Ok,
        second_board_lines(req) is Ok,
        results.len() >= 3,
        forall|i: int| 0 <= i < 3 ==> (#[trigger] results[i]) is None,
    ensures
        dual_run(req, at_rest(0), EventView::Start, results, 0) == (
            Outcome::Failed(ServiceError::DualEngineFailed),
            2nat,
        ),
{
    let r1 = results.drop_first();
    let r2 = r1.drop_first();
    let r3 = r2.drop_first();
    assert(r1[0] == results[1]);
    assert(r2[0] == results[2]);
    assert(results[0] is None);
    let s0 = waiting(0, DualPhase::Analysing);
    let s1 = waiting(1, DualPhase::Analysing);
    let s2 = waiting(2, DualPhase::Analysing);
    assert(dual_run(req, s2, event_of(results[2]), r3, 2) == (
        Outcome::Failed(ServiceError::DualEngineFailed),
        2nat,
    ));
    assert(dual_run(req, s1, event_of(results[1]), r2, 1) == (
        Outcome::Failed(ServiceError::DualEngineFailed),
        2nat,
    ));
    assert(dual_run(req, s0, event_of(results[0]), r1, 0) == (
        Outcome::Failed(ServiceError::DualEngineFailed),
        2nat,
    ));
}

impl DualState {
    /// The state of a request that has just come in.
    pub fn new() -> (s: DualState)
        ensures
            s@ == at_rest(0),
    {
        DualState::rest(0)
    }

    /// The state in which nothing is under way.
    fn rest(attempts: usize) -> (s: DualState)
        ensures
            s@ == at_rest(attempts as int),
    {
        let s = DualState {
            attempts,
            phase: DualPhase::Idle,
            candidates: Vec::new(),
            evaluations: Vec::new(),
        };
        assert(s@.candidates =~= Seq::<CandidateView>::empty());
        s
    }

    /// The state while `phase` is under way with nothing gathered yet.
    fn wait(attempts: usize, phase: DualPhase) -> (s: DualState)
        ensures
            s@ == waiting(attempts as int, phase),
    {
        let s = DualState { attempts, phase, candidates: Vec::new(), evaluations: Vec::new() };
        assert(s@.candidates =~= Seq::<CandidateView>::empty());
        s
    }
}

/// The metric of a request.
pub fn metric_of_request(req: &AiDualGenmoveRequest) -> (m: Metric)
    ensures
        m == dual_metric(*req),
{
    match &req.metric {
        Some(s) => parse_metric(Some(s.as_str())),
        None => parse_metric(None),
    }
}

/// The komi of a request, in ten-thousandths of a point.
fn komi(req: &AiDualGenmoveRequest) -> (k: i64)
    ensures
        k == komi_of(req.komi),
{
    match req.komi {
        Some(k) => k,
        None => DEFAULT_KOMI,
    }
}

/// What follows an analysis that came to nothing.
fn retry(req: &AiDualGenmoveRequest, attempts: usize) -> (r: (DualState, ServiceAction))
    ensures
        (r.0@, r.1@) == dual_retry(*req, attempts as int),
{
    if attempts >= DUAL_ATTEMPTS - 1 {
        let next = if attempts < DUAL_ATTEMPTS {
            attempts + 1
        } else {
            attempts
        };
        (DualState::rest(next), ServiceAction::Fail(ServiceError::DualEngineFailed))
    } else {
        match analysis_script(
            req.board_size,
            komi(req),
            &req.board_a_moves,
            req.next_to_move.as_str(),
        ) {
            Ok(cmds) => (
                DualState::wait(attempts + 1, DualPhase::Analysing),
                ServiceAction::ReplaceAndRun(cmds),
            ),
            Err(e) => (
                DualState::rest(attempts + 1),
                ServiceAction::Fail(ServiceError::InvalidInput(e)),
            ),
        }
    }
}

/// What follows once `evals` holds the values of the first candidates.
fn evaluate(
    req: &AiDualGenmoveRequest,
    attempts: usize,
    cands: Vec<Candidate>,
    evals: Vec<Evaluation>,
) -> (r: (DualState, ServiceAction))
    ensures
        (r.0@, r.1@) == dual_evaluate(*req, attempts as int, candidate_views(cands@), evals@),
{
    if evals.len() < cands.len() {
        assert(candidate_views(cands@)[evals.len() as int] == cands[evals.len() as int]@);
        match evaluation_script(
            req.board_size,
            komi(req),
            &req.board_b_moves,
            req.next_to_move.as_str(),
            cands[evals.len()].mv.as_str(),
        ) {
            Ok(cmds) => (
                DualState {
                    attempts,
                    phase: DualPhase::Evaluating,
                    candidates: cands,
                    evaluations: evals,
                },
                ServiceAction::Run(cmds),
            ),
            Err(e) => (
                DualState::rest(attempts),
                ServiceAction::Fail(ServiceError::InvalidInput(e)),
            ),
        }
    } else {
        match choose_candidate(metric_of_request(req), &cands, &evals) {
            Some(b) => {
                assert(is_choice(
                    dual_metric(*req),
                    candidate_views(cands@),
                    evals@,
                    b as int,
                ));
                assert(candidate_views(cands@)[b as int] == cands[b as int]@);
                (DualState::rest(attempts), ServiceAction::Return(cands[b].mv.clone()))
            },
            None => retry(req, attempts),
        }
    }
}

/// What follows the candidates of the first board.
fn proceed(req: &AiDualGenmoveRequest, attempts: usize, cands: Vec<Candidate>) -> (r: (
    DualState,
    ServiceAction,
))
    ensures
        (r.0@, r.1@) == dual_proceed(*req, attempts as int, candidate_views(cands@)),
{
    let allowed = keep_allowed(&cands, &req.forbidden, req.board_size);
    if allowed.len() == 0 {
        (DualState::rest(attempts), ServiceAction::Return("pass".to_owned()))
    } else {
        evaluate(req, attempts, allowed, Vec::new())
    }
}

/// One step of the dual-board service: from the state and what the caller
/// reports to the next state and what the caller is to do.
pub fn genmove_dual_with_katago(req: &AiDualGenmoveRequest, state: DualState, event: ServiceEvent)
    -> (r: (DualState, ServiceAction))
    ensures
        (r.0@, r.1@) == dual_step(*req, state@, event@),
{
    let DualState { attempts, phase, candidates, evaluations } = state;
    match event {
        ServiceEvent::Start => {
            match analysis_script(
                req.board_size,
                komi(req),
                &req.board_a_moves,
                req.next_to_move.as_str(),
            ) {
                Err(e) => (
                    DualState::rest(attempts),
                    ServiceAction::Fail(ServiceError::InvalidInput(e)),
                ),
                Ok(cmds) => match setup_position(req.board_size, komi(req), &req.board_b_moves) {
                    Err(e) => (
                        DualState::rest(attempts),
                        ServiceAction::Fail(ServiceError::InvalidInput(e)),
                    ),
                    Ok(_) => (
                        DualState::wait(attempts, DualPhase::Analysing),
                        ServiceAction::Run(cmds),
                    ),
                },
            }
        },
        ServiceEvent::EngineError => retry(req, attempts),
        ServiceEvent::Reply(reply) => match phase {
            DualPhase::Idle => retry(req, attempts),
            DualPhase::Analysing => {
                let cands = candidates_from_info(
                    &reply.info,
                    breadth(req.k),
                    metric_of_request(req),
                );
                if cands.len() == 0 {
                    match genmove_script(
                        req.board_size,
                        komi(req),
                        &req.board_a_moves,
                        req.next_to_move.as_str(),
                    ) {
                        Ok(cmds) => (
                            DualState::wait(attempts, DualPhase::Asking),
                            ServiceAction::Run(cmds),
                        ),
                        Err(e) => (
                            DualState::rest(attempts),
                            ServiceAction::Fail(ServiceError::InvalidInput(e)),
                        ),
                    }
                } else {
                    proceed(req, attempts, cands)
                }
            },
            DualPhase::Asking => {
                let c = candidate_from_answer(reply.payload, metric_of_request(req));
                let mut cands: Vec<Candidate> = Vec::new();
                cands.push(c);
                assert(candidate_views(cands@) =~= seq![c@]);
                proceed(req, attempts, cands)
            },
            DualPhase::Evaluating => {
                if evaluations.len() < candidates.len() {
                    assert(candidate_views(candidates@)[evaluations.len() as int]
                        == candidates[evaluations.len() as int]@);
                    let metric = metric_of_request(req);
                    let value = match value_of_special(
                        candidates[evaluations.len()].mv.as_str(),
                        metric,
                    ) {
                        Some(v) => v,
                        None => evaluation_from_info(&reply.info, metric),
                    };
                    let mut evals = evaluations;
                    evals.push(value);
                    evaluate(req, attempts, candidates, evals)
                } else {
                    retry(req, attempts)
                }
            },
        },
    }
}

/// What a finished action answers the request with: the move, or the error;
/// `None` while the action asks for more work.
pub fn dual_response(action: &ServiceAction) -> (r: Option<
    Result<AiDualGenmoveResponse, ServiceError>,
>)
    ensures
        match action@ {
            ActionView::Return(m) => r is Some && r->Some_0 is Ok && r->Some_0->Ok_0.move_coord@
                == m,
            ActionView::Fail(e) => r == Some(Err::<AiDualGenmoveResponse, ServiceError>(e)),
            _ => r is None,
        },
{
    match action {
        ServiceAction::Return(m) => Some(Ok(AiDualGenmoveResponse { move_coord: m.clone() })),
        ServiceAction::Fail(e) => Some(Err(*e)),
        _ => None,
    }
}

} // verus!

use quantum_go_api::analysis::{Candidate, Evaluation};
use quantum_go_api::codec::{CodecError, Metric};
use quantum_go_api::dual::{
    breadth, choose_candidate, genmove_dual_with_katago, keep_allowed, AiDualGenmoveRequest,
    DualPhase, DualState,
};
use quantum_go_api::framing::Reply;
use quantum_go_api::service::{forbidden_move, ServiceAction, ServiceError, ServiceEvent};
use quantum_go_api::session::MoveItem;
use quantum_go_api::single::{genmove_with_katago, AiGenmoveRequest, GenmoveState};

fn texts(l: &[&str]) -> Vec<String> {
    l.iter().map(|s| s.to_string()).collect()
}

fn reply(payload: &str, info: &[&str]) -> Option<Reply> {
    Some(Reply { success: true, payload: payload.to_string(), info: texts(info) })
}

fn stone(color: &str, position: &str) -> MoveItem {
    MoveItem { color: color.to_string(), position: position.to_string() }
}

fn single_request(forbidden: Option<&[&str]>) -> AiGenmoveRequest {
    AiGenmoveRequest {
        board_size: 9,
        next_to_move: "white".to_string(),
        moves: vec![stone("black", "1,1")],
        komi: None,
        rules: None,
        forbidden: forbidden.map(texts),
    }
}

fn dual_request(forbidden: &[&str], k: Option<usize>, metric: Option<&str>) -> AiDualGenmoveRequest {
    AiDualGenmoveRequest {
        board_size: 9,
        next_to_move: "black".to_string(),
        board_a_moves: vec![stone("black", "1,1"), stone("white", "9,9")],
        board_b_moves: vec![stone("black", "2,2")],
        komi: Some(65_000),
        rules: None,
        forbidden: Some(texts(forbidden)),
        k,
        metric: metric.map(|m| m.to_string()),
    }
}

/// Runs the single-board service against the engine's results, in order.
fn run_single(
    req: &AiGenmoveRequest,
    results: Vec<Option<Reply>>,
) -> (Result<String, ServiceError>, usize, Vec<Vec<String>>) {
    let mut results = results.into_iter();
    let mut scripts = Vec::new();
    let mut replaced = 0;
    let (mut state, mut action) = genmove_with_katago(req, GenmoveState::new(), ServiceEvent::Start);
    loop {
        let script = match action {
            ServiceAction::Return(m) => return (Ok(m), replaced, scripts),
            ServiceAction::Fail(e) => return (Err(e), replaced, scripts),
            ServiceAction::Run(s) => s,
            ServiceAction::ReplaceAndRun(s) => {
                replaced += 1;
                s
            }
        };
        scripts.push(script);
        let event = match results.next().expect("the engine has no more results") {
            Some(r) => ServiceEvent::Reply(r),
            None => ServiceEvent::EngineError,
        };
        let next = genmove_with_katago(req, state, event);
        state = next.0;
        action = next.1;
    }
}

/// Runs the dual-board service against the engine's results, in order.
fn run_dual(
    req: &AiDualGenmoveRequest,
    results: Vec<Option<Reply>>,
) -> (Result<String, ServiceError>, usize, Vec<Vec<String>>) {
    let mut results = results.into_iter();
    let mut scripts = Vec::new();
    let mut replaced = 0;
    let (mut state, mut action) =
        genmove_dual_with_katago(req, DualState::new(), ServiceEvent::Start);
    loop {
        let script = match action {
            ServiceAction::Return(m) => return (Ok(m), replaced, scripts),
            ServiceAction::Fail(e) => return (Err(e), replaced, scripts),
            ServiceAction::Run(s) => s,
            ServiceAction::ReplaceAndRun(s) => {
                replaced += 1;
                s
            }
        };
        scripts.push(script);
        let event = match results.next().expect("the engine has no more results") {
            Some(r) => ServiceEvent::Reply(r),
            None => ServiceEvent::EngineError,
        };
        let next = genmove_dual_with_katago(req, state, event);
        state = next.0;
        action = next.1;
    }
}

fn candidate(mv: &str, metric: i64, winrate: i64) -> Candidate {
    Candidate { mv: mv.to_string(), visits: 1, metric, winrate }
}

fn value(metric: i64, winrate: i64) -> Evaluation {
    Evaluation { metric, winrate }
}

#[test]
fn without_a_forbidden_set_the_first_reply_is_returned() {
    for answer in ["D4", "pass", "resign", "", "what ever", "A9"] {
        for forbidden in [None, Some(&[][..])] {
            let req = single_request(forbidden);
            let (result, replaced, scripts) = run_single(&req, vec![reply(answer, &[])]);
            assert_eq!(result, Ok(answer.to_string()));
            assert_eq!(replaced, 0);
            assert_eq!(
                scripts,
                vec![texts(&["boardsize 9", "komi 7.5", "clear_board", "play B A9", "genmove W"])]
            );
        }
    }
}

#[test]
fn five_forbidden_replies_end_in_a_pass_after_four_replacements() {
    let req = single_request(Some(&["6,4", "1,1"]));
    let results = vec![
        reply("D4", &[]),
        reply("d4", &[]),
        reply("A9", &[]),
        reply(" D4 ", &[]),
        reply("D4", &[]),
        reply("E5", &[]),
    ];
    let (result, replaced, scripts) = run_single(&req, results);
    assert_eq!(result, Ok("pass".to_string()));
    assert_eq!(replaced, 4);
    assert_eq!(scripts.len(), 5);
}

#[test]
fn a_move_that_is_not_forbidden_ends_the_retries() {
    let req = single_request(Some(&["6,4"]));
    let results = vec![reply("D4", &[]), None, reply("E5", &[])];
    let (result, replaced, _) = run_single(&req, results);
    assert_eq!(result, Ok("E5".to_string()));
    assert_eq!(replaced, 2);
}

#[test]
fn pass_resign_and_unreadable_answers_are_never_forbidden() {
    let forbidden = Some(texts(&["6,4", "PASS", "RESIGN", "pass"]));
    assert!(forbidden_move(&forbidden, 9, "D4"));
    assert!(forbidden_move(&forbidden, 9, " d4 "));
    assert!(!forbidden_move(&forbidden, 9, "pass"));
    assert!(!forbidden_move(&forbidden, 9, "RESIGN"));
    assert!(!forbidden_move(&forbidden, 9, "Z99"));
    assert!(!forbidden_move(&forbidden, 9, ""));
    assert!(!forbidden_move(&forbidden, 9, "E5"));
    assert!(!forbidden_move(&forbidden, 19, "D4"));
    assert!(!forbidden_move(&None, 9, "D4"));
    assert!(!forbidden_move(&Some(texts(&["6, 4"])), 9, "D4"));
}

#[test]
fn five_engine_errors_fail_after_four_replacements() {
    let req = single_request(Some(&["6,4"]));
    let (result, replaced, _) = run_single(&req, vec![None, None, None, None, None]);
    assert_eq!(result, Err(ServiceError::EngineFailed));
    assert_eq!(replaced, 4);
    let mixed = vec![None, reply("D4", &[]), None, reply("D4", &[]), None];
    let (result, replaced, _) = run_single(&req, mixed);
    assert_eq!(result, Err(ServiceError::EngineFailed));
    assert_eq!(replaced, 4);
    let mixed = vec![None, reply("D4", &[]), None, None, reply("D4", &[])];
    let (result, replaced, _) = run_single(&req, mixed);
    assert_eq!(result, Ok("pass".to_string()));
    assert_eq!(replaced, 4);
}

#[test]
fn a_history_off_the_board_is_refused_before_the_engine_is_asked() {
    let mut req = single_request(None);
    req.moves.push(stone("white", "10,1"));
    req.moves.push(stone("white", "x"));
    let (result, replaced, scripts) = run_single(&req, vec![]);
    assert_eq!(result, Err(ServiceError::InvalidInput(CodecError::PosOutOfBounds)));
    assert_eq!(replaced, 0);
    assert!(scripts.is_empty());
    let mut dual = dual_request(&[], None, None);
    dual.board_b_moves.push(stone("white", "x"));
    let (result, replaced, scripts) = run_dual(&dual, vec![]);
    assert_eq!(result, Err(ServiceError::InvalidInput(CodecError::InvalidPos)));
    assert_eq!(replaced, 0);
    assert!(scripts.is_empty());
}

#[test]
fn the_attempts_are_counted_in_the_state() {
    let req = single_request(Some(&["6,4"]));
    let state = GenmoveState { attempts: 3 };
    let r = Reply { success: true, payload: "D4".to_string(), info: vec![] };
    let (state, action) = genmove_with_katago(&req, state, ServiceEvent::Reply(r));
    assert_eq!(state.attempts, 4);
    assert!(matches!(action, ServiceAction::ReplaceAndRun(_)));
    let (state, action) = genmove_with_katago(&req, state, ServiceEvent::EngineError);
    assert_eq!(state.attempts, 5);
    assert!(matches!(action, ServiceAction::Fail(ServiceError::EngineFailed)));
    let (state, action) = genmove_with_katago(&req, state, ServiceEvent::EngineError);
    assert_eq!(state.attempts, 5);
    assert!(matches!(action, ServiceAction::Fail(ServiceError::EngineFailed)));
}

#[test]
fn by_win_rate_the_better_worse_board_wins() {
    let cands = vec![candidate("D4", 900_000, 900_000), candidate("E5", 600_000, 600_000)];
    let evals = vec![value(200_000, 200_000), value(600_000, 600_000)];
    assert_eq!(choose_candidate(Metric::Winrate, &cands, &evals), Some(1));
}

#[test]
fn the_first_of_equal_candidates_is_chosen() {
    let cands = vec![
        candidate("A1", 300_000, 300_000),
        candidate("B2", 700_000, 700_000),
        candidate("C3", 500_000, 500_000),
    ];
    let evals = vec![value(900_000, 900_000), value(500_000, 500_000), value(500_000, 500_000)];
    assert_eq!(choose_candidate(Metric::Winrate, &cands, &evals), Some(1));
    assert_eq!(choose_candidate(Metric::Winrate, &cands, &evals[..2].to_vec()), Some(1));
    assert_eq!(choose_candidate(Metric::Winrate, &cands, &Vec::new()), None);
    assert_eq!(choose_candidate(Metric::ScoreLead, &Vec::new(), &evals), None);
}

#[test]
fn by_score_lead_the_floor_comes_first() {
    let cands = vec![candidate("D4", 100_000, 200_000), candidate("E5", 10_000, 500_000)];
    let evals = vec![value(100_000, 500_000), value(10_000, 500_000)];
    assert_eq!(choose_candidate(Metric::ScoreLead, &cands, &evals), Some(1));
    let evals = vec![value(100_000, 500_000), value(10_000, 349_999)];
    assert_eq!(choose_candidate(Metric::ScoreLead, &cands, &evals), Some(0));
    let cands = vec![candidate("D4", 100_000, 350_000), candidate("E5", 10_000, 500_000)];
    let evals = vec![value(100_000, 350_000), value(10_000, 500_000)];
    assert_eq!(choose_candidate(Metric::ScoreLead, &cands, &evals), Some(0));
    let cands = vec![candidate("D4", i64::MAX, 500_000), candidate("E5", i64::MAX, 500_000)];
    let evals = vec![value(i64::MAX - 1, 500_000), value(i64::MAX, 500_000)];
    assert_eq!(choose_candidate(Metric::ScoreLead, &cands, &evals), Some(1));
}

#[test]
fn the_breadth_is_clamped() {
    assert_eq!(breadth(None), 8);
    assert_eq!(breadth(Some(0)), 1);
    assert_eq!(breadth(Some(1)), 1);
    assert_eq!(breadth(Some(20)), 20);
    assert_eq!(breadth(Some(21)), 20);
    assert_eq!(breadth(Some(usize::MAX)), 20);
}

#[test]
fn forbidden_candidates_are_dropped_in_order() {
    let cands = vec![
        candidate("D4", 1, 1),
        candidate("pass", 2, 2),
        candidate("E5", 3, 3),
        candidate("??", 4, 4),
        candidate("d4", 5, 5),
    ];
    let kept = keep_allowed(&cands, &Some(texts(&["6,4", "PASS"])), 9);
    let moves: Vec<(String, i64)> = kept.iter().map(|c| (c.mv.clone(), c.metric)).collect();
    assert_eq!(
        moves,
        vec![("pass".to_string(), 2), ("E5".to_string(), 3), ("??".to_string(), 4)]
    );
    assert_eq!(keep_allowed(&cands, &None, 9).len(), 5);
}

#[test]
fn the_dual_service_by_win_rate() {
    let req = dual_request(&[], None, Some("winrate"));
    let results = vec![
        reply(
            "D4",
            &[
                "info move D4 visits 100 winrate 90%",
                "info move E5 visits 50 winrate 60%",
            ],
        ),
        reply("C3", &["info move C3 visits 10 winrate 80%"]),
        reply("C3", &["info move C3 visits 10 winrate 40%"]),
    ];
    let (result, replaced, scripts) = run_dual(&req, results);
    assert_eq!(result, Ok("E5".to_string()));
    assert_eq!(replaced, 0);
    assert_eq!(
        scripts,
        vec![
            texts(&[
                "boardsize 9",
                "komi 6.5",
                "clear_board",
                "play B A9",
                "play W J1",
                "kata-genmove_analyze B",
            ]),
            texts(&[
                "boardsize 9",
                "komi 6.5",
                "clear_board",
                "play B B8",
                "play B D4",
                "kata-genmove_analyze W",
            ]),
            texts(&[
                "boardsize 9",
                "komi 6.5",
                "clear_board",
                "play B B8",
                "play B E5",
                "kata-genmove_analyze W",
            ]),
        ]
    );
}

#[test]
fn the_dual_service_by_score_lead_keeps_the_floor() {
    let req = dual_request(&[], Some(5), None);
    let analysis = reply(
        "D4",
        &[
            "info move D4 visits 100 winrate 20% scoreLead 30",
            "info move E5 visits 50 winrate 50% scoreLead 1",
        ],
    );
    let results = vec![
        analysis,
        reply("x", &["info move C3 visits 1 winrate 50% scoreLead -30"]),
        reply("x", &["info move C3 visits 1 winrate 50% scoreLead -1"]),
    ];
    let (result, replaced, _) = run_dual(&req, results);
    assert_eq!(result, Ok("E5".to_string()));
    assert_eq!(replaced, 0);
    let analysis = reply(
        "D4",
        &[
            "info move D4 visits 100 winrate 20% scoreLead 30",
            "info move E5 visits 50 winrate 30% scoreLead 1",
        ],
    );
    let results = vec![
        analysis,
        reply("x", &["info move C3 visits 1 winrate 50% scoreLead -30"]),
        reply("x", &["info move C3 visits 1 winrate 50% scoreLead -1"]),
    ];
    let (result, _, _) = run_dual(&req, results);
    assert_eq!(result, Ok("D4".to_string()));
}

#[test]
fn a_dead_end_is_a_pass_without_any_replacement() {
    let req = dual_request(&["6,4", "5,5"], None, Some("winrate"));
    let analysis = reply(
        "D4",
        &[
            "info move D4 visits 100 winrate 90%",
            "info move E5 visits 50 winrate 60%",
        ],
    );
    let (result, replaced, scripts) = run_dual(&req, vec![analysis]);
    assert_eq!(result, Ok("pass".to_string()));
    assert_eq!(replaced, 0);
    assert_eq!(scripts.len(), 1);
}

#[test]
fn an_analysis_without_candidates_falls_back_to_a_plain_move() {
    let req = dual_request(&[], None, Some("winrate"));
    let results = vec![
        reply("D4", &["chatter"]),
        reply("C3", &[]),
        reply("x", &["info move A1 visits 1 winrate 30%"]),
    ];
    let (result, replaced, scripts) = run_dual(&req, results);
    assert_eq!(result, Ok("C3".to_string()));
    assert_eq!(replaced, 0);
    assert_eq!(scripts.len(), 3);
    assert_eq!(scripts[1].last().unwrap(), "genmove B");
    assert_eq!(scripts[2].last().unwrap(), "kata-genmove_analyze W");
    let forbidden = dual_request(&["7,3"], None, Some("winrate"));
    let (result, replaced, _) =
        run_dual(&forbidden, vec![reply("", &[]), reply("C3", &[])]);
    assert_eq!(result, Ok("pass".to_string()));
    assert_eq!(replaced, 0);
}

#[test]
fn a_pass_is_valued_without_playing_it() {
    let req = dual_request(&[], Some(1), Some("winrate"));
    let results = vec![
        reply("pass", &["info move pass visits 3 winrate 70%"]),
        reply("ignored", &["info move A1 visits 1 winrate 1%"]),
    ];
    let (result, _, scripts) = run_dual(&req, results);
    assert_eq!(result, Ok("pass".to_string()));
    assert_eq!(
        scripts[1],
        texts(&["boardsize 9", "komi 6.5", "clear_board", "play B B8"])
    );
}

#[test]
fn engine_errors_are_retried_up_to_the_third() {
    let req = dual_request(&[], None, Some("winrate"));
    let (result, replaced, scripts) = run_dual(&req, vec![None, None, None]);
    assert_eq!(result, Err(ServiceError::DualEngineFailed));
    assert_eq!(replaced, 2);
    assert_eq!(scripts.len(), 3);
    let analysis = || reply("D4", &["info move D4 visits 100 winrate 90%"]);
    let results = vec![
        analysis(),
        None,
        analysis(),
        reply("x", &["info move C3 visits 10 winrate 80%"]),
    ];
    let (result, replaced, _) = run_dual(&req, results);
    assert_eq!(result, Ok("D4".to_string()));
    assert_eq!(replaced, 1);
}

#[test]
fn a_reply_that_nothing_waits_for_counts_as_a_fault() {
    let req = dual_request(&[], None, None);
    let r = Reply { success: true, payload: "D4".to_string(), info: vec![] };
    let (state, action) = genmove_dual_with_katago(&req, DualState::new(), ServiceEvent::Reply(r));
    assert_eq!(state.attempts, 1);
    assert_eq!(state.phase, DualPhase::Analysing);
    assert!(matches!(action, ServiceAction::ReplaceAndRun(_)));
}

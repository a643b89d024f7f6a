use quantum_go_api::analysis::{
    best_figure, build_table, candidate_from_answer, candidates_from_info,
    evaluation_from_info, parse_info_lines, rank, value_of_special, Candidate, Evaluation,
};
use quantum_go_api::codec::Metric;
use quantum_go_api::framing::{read_gtp_reply, read_reply_with_info, Framing, ReplyReader};
use quantum_go_api::info::parse_info_line;

fn lines(l: &[&str]) -> Vec<String> {
    l.iter().map(|s| s.to_string()).collect()
}

fn tuple(c: &Candidate) -> (String, i64, i64, i64) {
    (c.mv.clone(), c.visits, c.metric, c.winrate)
}

#[test]
fn the_sample_with_more_visits_wins() {
    let info = lines(&[
        "info move D4 visits 50 winrate 60.0%",
        "info move D4 visits 120 winrate 45.0%",
    ]);
    let c = candidates_from_info(&info, 8, Metric::Winrate);
    assert_eq!(c.len(), 1);
    assert_eq!(tuple(&c[0]), ("D4".to_string(), 120, 450_000, 450_000));
    assert_eq!(c[0].winrate as f64 / 1_000_000.0, 0.45);
}

#[test]
fn a_later_sample_with_no_more_visits_is_dropped() {
    let info = lines(&[
        "info move D4 visits 50 winrate 60.0%",
        "info move D4 visits 50 winrate 45.0%",
        "info move D4 visits 10 winrate 10.0%",
    ]);
    let c = candidates_from_info(&info, 8, Metric::Winrate);
    assert_eq!(c.len(), 1);
    assert_eq!(tuple(&c[0]), ("D4".to_string(), 50, 600_000, 600_000));
}

#[test]
fn an_info_line_is_read_word_by_word() {
    let s = parse_info_line("info move D16 visits 123 winrate 54.32% scoreLead 2.3 prior 0.1");
    assert_eq!(s.mv, Some("D16".to_string()));
    assert_eq!(s.visits, Some(123));
    assert_eq!(s.winrate, Some(543_200));
    assert_eq!(s.score_lead, Some(23_000));
}

#[test]
fn tiny_values_in_exponent_notation_are_read() {
    let s = parse_info_line("info move D4 visits 9 winrate 3.2e-05% scoreLead -8.5e-05");
    assert_eq!(s.winrate, Some(0));
    assert_eq!(s.score_lead, Some(0));
    let s = parse_info_line("info move D4 visits 9 winrate 5.123e+01% scoreLead 1.25e1");
    assert_eq!(s.winrate, Some(512_300));
    assert_eq!(s.score_lead, Some(125_000));
}

#[test]
fn keys_are_read_in_any_case_and_bad_values_are_skipped() {
    let s = parse_info_line("MOVE q4 Visits x WINRATE 12%% score_lead -1.5 SCORELEAD abc winrate");
    assert_eq!(s.mv, Some("q4".to_string()));
    assert_eq!(s.visits, None);
    assert_eq!(s.winrate, Some(120_000));
    assert_eq!(s.score_lead, Some(-15_000));
    let empty = parse_info_line("");
    assert_eq!(empty.mv, None);
    assert_eq!(empty.visits, None);
    let last = parse_info_line("visits 7 move");
    assert_eq!(last.mv, None);
    assert_eq!(last.visits, Some(7));
}

#[test]
fn a_value_is_never_read_as_a_key() {
    let s = parse_info_line("move visits 5 winrate 50%");
    assert_eq!(s.mv, Some("visits".to_string()));
    assert_eq!(s.visits, None);
    assert_eq!(s.winrate, Some(500_000));
}

#[test]
fn missing_values_are_estimated_from_the_other() {
    let info = lines(&[
        "info move A1 visits 3 winrate 60%",
        "info move B2 visits 2 scoreLead 2.3",
        "info move C3 visits 1",
    ]);
    let by_lead = candidates_from_info(&info, 8, Metric::ScoreLead);
    assert_eq!(by_lead.len(), 3);
    assert_eq!(tuple(&by_lead[0]), ("A1".to_string(), 3, 100_000, 600_000));
    assert_eq!(tuple(&by_lead[1]), ("B2".to_string(), 2, 23_000, 523_000));
    assert_eq!(tuple(&by_lead[2]), ("C3".to_string(), 1, 0, 500_000));
    let by_rate = candidates_from_info(&info, 8, Metric::Winrate);
    assert_eq!(tuple(&by_rate[0]), ("A1".to_string(), 3, 600_000, 600_000));
    assert_eq!(tuple(&by_rate[1]), ("B2".to_string(), 2, 523_000, 523_000));
    assert_eq!(tuple(&by_rate[2]), ("C3".to_string(), 1, 500_000, 500_000));
}

#[test]
fn candidates_are_ranked_by_visits_and_cut_to_k() {
    let info = lines(&[
        "info move A1 visits 10 winrate 50%",
        "info move B2 visits 30 winrate 50%",
        "some chatter without a move",
        "info move C3 visits 20 winrate 50%",
        "info move D4 visits 30 winrate 50%",
        "info move E5 winrate 50%",
        "info move A1 visits 40 winrate 55%",
    ]);
    let table = build_table(&info, Metric::Winrate);
    let order: Vec<String> = table.iter().map(|c| c.mv.clone()).collect();
    assert_eq!(order, vec!["A1", "B2", "C3", "D4", "E5"]);
    let all = rank(&table);
    let order: Vec<(String, i64)> = all.iter().map(|c| (c.mv.clone(), c.visits)).collect();
    assert_eq!(
        order,
        vec![
            ("A1".to_string(), 40),
            ("B2".to_string(), 30),
            ("D4".to_string(), 30),
            ("C3".to_string(), 20),
            ("E5".to_string(), 0),
        ]
    );
    let top = candidates_from_info(&info, 2, Metric::Winrate);
    let order: Vec<String> = top.iter().map(|c| c.mv.clone()).collect();
    assert_eq!(order, vec!["A1", "B2"]);
    assert_eq!(top[0].winrate, 550_000);
    assert!(candidates_from_info(&info, 0, Metric::Winrate).is_empty());
    assert_eq!(candidates_from_info(&info, 99, Metric::Winrate).len(), 5);
    assert!(candidates_from_info(&lines(&["no", "moves here"]), 8, Metric::Winrate).is_empty());
}

#[test]
fn a_plain_answer_is_a_neutral_candidate() {
    let c = candidate_from_answer("Q16".to_string(), Metric::Winrate);
    assert_eq!(tuple(&c), ("Q16".to_string(), 0, 500_000, 500_000));
    let c = candidate_from_answer("Q16".to_string(), Metric::ScoreLead);
    assert_eq!(tuple(&c), ("Q16".to_string(), 0, 0, 500_000));
}

#[test]
fn pass_and_resign_have_fixed_values() {
    assert_eq!(
        value_of_special("pass", Metric::Winrate),
        Some(Evaluation { metric: 500_000, winrate: 500_000 })
    );
    assert_eq!(
        value_of_special("PASS", Metric::ScoreLead),
        Some(Evaluation { metric: 0, winrate: 500_000 })
    );
    assert_eq!(
        value_of_special("Resign", Metric::Winrate),
        Some(Evaluation { metric: 0, winrate: 0 })
    );
    assert_eq!(
        value_of_special("resign", Metric::ScoreLead),
        Some(Evaluation { metric: -10_000_000, winrate: 0 })
    );
    assert_eq!(value_of_special("D4", Metric::Winrate), None);
    assert_eq!(value_of_special(" pass", Metric::Winrate), None);
}

#[test]
fn the_opponents_view_is_turned_round() {
    let info = lines(&[
        "info move D4 visits 5 winrate 70% scoreLead 4.5",
        "info move E5 visits 9 winrate 80%",
        "info move F6 visits 1 scoreLead -1.25",
    ]);
    assert_eq!(
        evaluation_from_info(&info, Metric::Winrate),
        Evaluation { metric: 200_000, winrate: 200_000 }
    );
    assert_eq!(
        evaluation_from_info(&info, Metric::ScoreLead),
        Evaluation { metric: -45_000, winrate: 200_000 }
    );
    let none: Vec<String> = Vec::new();
    assert_eq!(
        evaluation_from_info(&none, Metric::Winrate),
        Evaluation { metric: 500_000, winrate: 500_000 }
    );
    assert_eq!(
        evaluation_from_info(&none, Metric::ScoreLead),
        Evaluation { metric: 0, winrate: 500_000 }
    );
}

#[test]
fn the_best_observed_line_counts_not_the_last() {
    let info = lines(&[
        "info move C3 visits 100 winrate 75.0%",
        "info move Q16 visits 5 winrate 25.0%",
    ]);
    assert_eq!(
        evaluation_from_info(&info, Metric::Winrate),
        Evaluation { metric: 250_000, winrate: 250_000 }
    );
    let info = lines(&[
        "info move A1 visits 7 winrate 10% scoreLead -4",
        "info move B2 visits 7 winrate 20% scoreLead 4",
        "info move C3 winrate 30%",
        "info move D4 visits 9 scoreLead 1.5",
        "info move E5 visits 8 winrate 40%",
    ]);
    assert_eq!(
        evaluation_from_info(&info, Metric::Winrate),
        Evaluation { metric: 600_000, winrate: 600_000 }
    );
    assert_eq!(
        evaluation_from_info(&info, Metric::ScoreLead),
        Evaluation { metric: -15_000, winrate: 600_000 }
    );
    let tie = lines(&[
        "info move A1 visits 7 winrate 10% scoreLead -4",
        "info move B2 visits 7 winrate 20% scoreLead 4",
    ]);
    assert_eq!(
        evaluation_from_info(&tie, Metric::ScoreLead),
        Evaluation { metric: 40_000, winrate: 900_000 }
    );
    let samples = parse_info_lines(&info);
    assert_eq!(samples.len(), 5);
    assert_eq!(best_figure(&samples, false), Some(400_000));
    assert_eq!(best_figure(&samples, true), Some(15_000));
    assert_eq!(best_figure(&Vec::new(), true), None);
    assert_eq!(best_figure(&parse_info_lines(&lines(&["info move A1 visits 3"])), false), None);
}

#[test]
fn a_reply_is_read_line_by_line() {
    let mut reader = ReplyReader::new();
    for line in ["info move D4 visits 50 winrate 60.0%\n", "\n", "  chatter  \n"] {
        reader = match read_gtp_reply(reader, Some(line)) {
            Framing::Reading(r) => r,
            _ => panic!("the reply is not complete"),
        };
    }
    reader = match read_gtp_reply(reader, Some("= D4 \n")) {
        Framing::Reading(r) => r,
        _ => panic!("the reply is not complete"),
    };
    assert_eq!(reader.status, Some((true, "D4".to_string())));
    reader = match read_gtp_reply(reader, Some("more\n")) {
        Framing::Reading(r) => r,
        _ => panic!("the reply is not complete"),
    };
    match read_gtp_reply(reader, Some("\n")) {
        Framing::Complete(reply) => {
            assert!(reply.success);
            assert_eq!(reply.payload, "D4");
            assert_eq!(reply.info, vec!["info move D4 visits 50 winrate 60.0%", "chatter"]);
        }
        _ => panic!("the reply is complete"),
    }
}

#[test]
fn a_failure_reply_carries_its_message() {
    match read_reply_with_info(&lines(&["? illegal move\n", "\n", "= next\n"]), false) {
        Framing::Complete(reply) => {
            assert!(!reply.success);
            assert_eq!(reply.payload, "illegal move");
            assert!(reply.info.is_empty());
        }
        _ => panic!("the reply is complete"),
    }
    match read_reply_with_info(&lines(&["=\n", "\n"]), false) {
        Framing::Complete(reply) => {
            assert!(reply.success);
            assert_eq!(reply.payload, "");
        }
        _ => panic!("the reply is complete"),
    }
}

#[test]
fn the_end_of_the_stream() {
    assert!(matches!(read_gtp_reply(ReplyReader::new(), None), Framing::Closed));
    assert!(matches!(read_reply_with_info(&lines(&["info a\n"]), true), Framing::Closed));
    assert!(matches!(read_reply_with_info(&lines(&["info a\n"]), false), Framing::Reading(_)));
    match read_reply_with_info(&lines(&["= pass\n"]), true) {
        Framing::Complete(reply) => assert_eq!(reply.payload, "pass"),
        _ => panic!("the end of the stream completes the reply"),
    }
    assert!(matches!(read_reply_with_info(&lines(&["= pass\n"]), false), Framing::Reading(_)));
}

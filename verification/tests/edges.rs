use quantum_go_api::account::{
    create_jwt_token, hash_password, issue_claims, login_verdict, sso_password, token_expired,
    verify_password, verify_user, JwtLoginRequest, LoginError, LoginRequest, PasswordError,
    RegisterRequest, WordPressUser,
};
use quantum_go_api::codec::CodecError;
use quantum_go_api::estimate::{
    board_stones, estimate_with_score_estimator, flatten_dead_stones, get_dead_stones,
    parse_position, player_code, EstimateError, ScoreEstimateBoardRequest, ScoreEstimateRequest,
    Stone,
};
use quantum_go_api::lobby::{
    get_leaderboard, list_rooms, page_window, GetLeaderboardRequest, ListRoomsRequest,
    LobbyError, Window,
};
use quantum_go_api::pool::SessionPool;
use quantum_go_api::session::{
    analysis_script, evaluation_script, genmove_script, launch_plan, opponent_of,
    setup_position, ConfigError, EngineEnv, MoveItem,
};

fn texts(l: &[&str]) -> Vec<String> {
    l.iter().map(|s| s.to_string()).collect()
}

fn stone(color: &str, position: &str) -> MoveItem {
    MoveItem { color: color.to_string(), position: position.to_string() }
}

fn env(bin: Option<&str>, real: Option<&str>, model: Option<&str>, config: Option<&str>) -> EngineEnv {
    EngineEnv {
        bin: bin.map(|s| s.to_string()),
        bin_real: real.map(|s| s.to_string()),
        model: model.map(|s| s.to_string()),
        config: config.map(|s| s.to_string()),
        overrides: None,
    }
}

#[test]
fn test_jwt_token_creation_and_verification() {
    let user = WordPressUser {
        wordpress_id: 123,
        username: "testuser".to_string(),
        email: "test@example.com".to_string(),
    };
    let claims = create_jwt_token(&user, 1_700_000_000);
    assert_eq!(claims.sub, 123);
    assert_eq!(claims.username, "testuser");
    assert_eq!(claims.email, "test@example.com");
    assert_eq!(claims.iss, "QuantumGo");
    assert_eq!(claims.iat, 1_700_000_000);
    assert_eq!(claims.exp, 1_700_086_400);
    assert_eq!(claims.display_name, None);
}

#[test]
fn the_requests_to_register_and_to_log_in() {
    let r = RegisterRequest { username: "u".to_string(), password: "p".to_string() };
    assert_eq!((r.username.as_str(), r.password.as_str()), ("u", "p"));
    let l = LoginRequest { username: "u".to_string(), password: "p".to_string() };
    assert_eq!((l.username.as_str(), l.password.as_str()), ("u", "p"));
    let j = JwtLoginRequest { token: "a.b.c".to_string() };
    assert_eq!(j.token, "a.b.c");
}

#[test]
fn a_token_expires_after_a_day() {
    let user = WordPressUser { wordpress_id: 1, username: "u".into(), email: "e".into() };
    let claims = issue_claims(&user, 1000).unwrap();
    assert!(!token_expired(&claims, 1000));
    assert!(!token_expired(&claims, 87_400));
    assert!(token_expired(&claims, 87_401));
    assert!(issue_claims(&user, u64::MAX - 86_400).is_some());
    assert!(issue_claims(&user, u64::MAX - 86_399).is_none());
}

#[test]
fn the_password_of_a_token_user() {
    assert_eq!(sso_password(123), "wp_sso_123");
    assert_eq!(sso_password(0), "wp_sso_0");
    assert_eq!(sso_password(u64::MAX), "wp_sso_18446744073709551615");
}

#[test]
fn a_stored_hash_is_checked() {
    let hash = "$2b$04$EGdrhbKUv8Oc9vGiXX0HQOxSg445d458Muh7DAHskb6QbtCvdxcie";
    assert!(matches!(verify_password("correctbatteryhorsestapler", hash), Ok(true)));
    assert!(matches!(verify_password("wrong", hash), Ok(false)));
    assert!(matches!(verify_password(hash, hash), Ok(false)));
    let broken = verify_password("wrong", "no hash at all");
    assert!(broken.is_err());
    assert!(!broken.err().unwrap().message.is_empty());
    assert!(matches!(verify_user("correctbatteryhorsestapler", hash), Ok(())));
    assert!(matches!(verify_user("wrong", hash), Err(LoginError::WrongPassword)));
    assert!(matches!(verify_user("wrong", "$2b$04$short"), Err(LoginError::Hash(_))));
}

#[test]
fn a_login_is_decided_from_the_check() {
    assert!(matches!(login_verdict(Ok(true)), Ok(())));
    assert!(matches!(login_verdict(Ok(false)), Err(LoginError::WrongPassword)));
    let failed = login_verdict(Err(PasswordError { message: "broken".to_string() }));
    match failed {
        Err(LoginError::Hash(e)) => assert_eq!(e.message, "broken"),
        _ => panic!("a hash that cannot be checked refuses the login"),
    }
}

#[test]
fn a_fresh_hash_verifies_its_password() {
    let first = hash_password("hunter2").ok().unwrap();
    let second = hash_password("hunter2").ok().unwrap();
    assert_ne!(first, "hunter2");
    assert_ne!(first, second);
    assert!(first.starts_with("$2b$12$"));
    assert!(matches!(verify_password("hunter2", &first), Ok(true)));
    assert!(matches!(verify_password("hunter3", &first), Ok(false)));
}

#[test]
fn the_commands_of_a_set_up() {
    let moves = vec![stone("black", "1,1"), stone("WHITE", " 9 , 9 "), stone("?", "5,5")];
    assert_eq!(
        setup_position(9, 75_000, &moves),
        Ok(texts(&[
            "boardsize 9",
            "komi 7.5",
            "clear_board",
            "play B A9",
            "play W J1",
            "play B E5",
        ]))
    );
    assert_eq!(
        setup_position(19, 0, &Vec::new()),
        Ok(texts(&["boardsize 19", "komi 0", "clear_board"]))
    );
    assert_eq!(
        setup_position(255, -5_000, &Vec::new()),
        Ok(texts(&["boardsize 255", "komi -0.5", "clear_board"]))
    );
}

#[test]
fn the_first_bad_move_of_a_history_decides() {
    let moves = vec![stone("black", "1,1"), stone("white", "0,1"), stone("black", "x")];
    assert_eq!(setup_position(9, 75_000, &moves), Err(CodecError::PosOutOfBounds));
    assert_eq!(genmove_script(9, 75_000, &moves, "black"), Err(CodecError::PosOutOfBounds));
    assert_eq!(analysis_script(9, 75_000, &moves, "black"), Err(CodecError::PosOutOfBounds));
    assert_eq!(
        evaluation_script(9, 75_000, &moves, "black", "D4"),
        Err(CodecError::PosOutOfBounds)
    );
    let moves = vec![stone("black", "1;1"), stone("white", "0,1")];
    assert_eq!(setup_position(9, 75_000, &moves), Err(CodecError::InvalidPos));
}

#[test]
fn the_scripts_of_the_services() {
    let moves = vec![stone("black", "3,4")];
    assert_eq!(
        genmove_script(9, 75_000, &moves, "white").unwrap().last().unwrap(),
        "genmove W"
    );
    assert_eq!(
        analysis_script(9, 75_000, &moves, "b").unwrap().last().unwrap(),
        "kata-genmove_analyze B"
    );
    assert_eq!(
        evaluation_script(9, 75_000, &moves, "white", "E5").unwrap()[3..],
        texts(&["play B D7", "play W E5", "kata-genmove_analyze B"])[..]
    );
    assert_eq!(
        evaluation_script(9, 75_000, &moves, "Black", "E5").unwrap()[4..],
        texts(&["play B E5", "kata-genmove_analyze W"])[..]
    );
    assert_eq!(evaluation_script(9, 75_000, &moves, "black", "PASS").unwrap().len(), 4);
    assert_eq!(evaluation_script(9, 75_000, &moves, "black", "resign").unwrap().len(), 4);
    assert_eq!(opponent_of("black"), 'W');
    assert_eq!(opponent_of("B"), 'W');
    assert_eq!(opponent_of("white"), 'B');
    assert_eq!(opponent_of("green"), 'B');
}

#[test]
fn the_engine_is_started_from_the_environment() {
    let plan = launch_plan(env(Some("/bin/katago"), None, Some("m.bin"), Some("gtp.cfg")));
    let plan = plan.ok().unwrap();
    assert_eq!(plan.program, "/bin/katago");
    assert_eq!(
        plan.args,
        texts(&[
            "gtp",
            "-model",
            "m.bin",
            "-config",
            "gtp.cfg",
            "-override-config",
            "ponderingEnabled=false",
        ])
    );
    let mut with = env(Some("/bin/katago"), Some("/opt/real"), Some("m"), Some("c"));
    with.overrides = Some("a=b".to_string());
    let plan = launch_plan(with).ok().unwrap();
    assert_eq!(plan.program, "/opt/real");
    assert_eq!(plan.args[6], "a=b");
    let blank = launch_plan(env(Some("/bin/katago"), Some(" \t"), Some("m"), Some("c")));
    assert_eq!(blank.ok().unwrap().program, "/bin/katago");
}

#[test]
fn a_missing_setting_is_named() {
    let e = launch_plan(env(None, Some("/opt/real"), None, None)).err().unwrap();
    assert_eq!(e, ConfigError::BinNotSet);
    assert_eq!(e.message(), "KATAGO_BIN not set");
    let e = launch_plan(env(Some("b"), None, None, None)).err().unwrap();
    assert_eq!(e, ConfigError::ModelNotSet);
    assert_eq!(e.message(), "KATAGO_MODEL not set");
    let e = launch_plan(env(Some("b"), None, Some("m"), None)).err().unwrap();
    assert_eq!(e, ConfigError::ConfigNotSet);
    assert_eq!(e.message(), "KATAGO_GTP_CONFIG not set");
}

#[test]
fn the_pool_keeps_one_session_for_each_size() {
    let mut pool: SessionPool<String> = SessionPool::new();
    assert_eq!(pool.acquire(9), None);
    assert_eq!(pool.replace(9, "first".to_string()), None);
    assert_eq!(pool.acquire(9), Some(&"first".to_string()));
    assert_eq!(pool.acquire(19), None);
    assert_eq!(pool.replace(19, "other".to_string()), None);
    assert_eq!(pool.replace(9, "second".to_string()), Some("first".to_string()));
    assert_eq!(pool.acquire(9), Some(&"second".to_string()));
    assert_eq!(pool.acquire(19), Some(&"other".to_string()));
    assert_eq!(pool.replace(255, "edge".to_string()), None);
    assert_eq!(pool.replace(0, "zero".to_string()), None);
    assert_eq!(pool.acquire(255), Some(&"edge".to_string()));
    assert_eq!(pool.acquire(0), Some(&"zero".to_string()));
}

#[test]
fn positions_for_the_estimator() {
    assert_eq!(parse_position("3,4"), Ok((3, 4)));
    assert_eq!(parse_position("-3,+4"), Ok((-3, 4)));
    assert_eq!(parse_position("34"), Err("Invalid position format".to_string()));
    assert_eq!(parse_position("3,4,5"), Err("Invalid position format".to_string()));
    assert_eq!(parse_position(" 3,4"), Err("Invalid x coordinate".to_string()));
    assert_eq!(parse_position(",4"), Err("Invalid x coordinate".to_string()));
    assert_eq!(parse_position("3,4 "), Err("Invalid y coordinate".to_string()));
    assert_eq!(parse_position("3,2147483648"), Err("Invalid y coordinate".to_string()));
    assert_eq!(parse_position("-2147483648,2147483647"), Ok((i32::MIN, i32::MAX)));
}

#[test]
fn stones_for_the_estimator() {
    let stones = board_stones(&texts(&["1,1", "3,4"]), &texts(&["9,9"]));
    assert_eq!(
        stones,
        Ok(vec![
            Stone { x: 0, y: 0, color: 1 },
            Stone { x: 2, y: 3, color: 1 },
            Stone { x: 8, y: 8, color: 2 },
        ])
    );
    assert_eq!(
        board_stones(&texts(&["1,1", "3;4"]), &texts(&["x,9"])),
        Err("Invalid position format".to_string())
    );
    assert_eq!(
        board_stones(&texts(&["1,1"]), &texts(&["x,9"])),
        Err("Invalid x coordinate".to_string())
    );
    assert_eq!(
        board_stones(&texts(&["-2147483648,1"]), &Vec::new()),
        Err("Invalid x coordinate".to_string())
    );
    assert_eq!(
        board_stones(&texts(&["1,-2147483648"]), &Vec::new()),
        Err("Invalid y coordinate".to_string())
    );
    assert_eq!(player_code(None), 1);
    assert_eq!(player_code(Some("black")), 1);
    assert_eq!(player_code(Some("white")), 2);
    assert_eq!(player_code(Some("White")), 1);
}

#[test]
fn a_request_for_an_estimate_is_laid_out_board_by_board() {
    let board = |black: &[&str], next: Option<&str>| ScoreEstimateBoardRequest {
        board_size: 9,
        black_stones: texts(black),
        white_stones: texts(&["2,2"]),
        next_to_move: next.map(|s| s.to_string()),
    };
    let none = ScoreEstimateRequest { boards: Vec::new() };
    let e = estimate_with_score_estimator(&none).err().unwrap();
    assert!(matches!(e, EstimateError::NoBoards));
    assert_eq!(e.message(), "no boards provided");
    let req = ScoreEstimateRequest { boards: vec![board(&["1,1"], None), board(&[], Some("white"))] };
    let setups = estimate_with_score_estimator(&req).ok().unwrap();
    assert_eq!(setups.len(), 2);
    assert_eq!(setups[0].size, 9);
    assert_eq!(setups[0].player, 1);
    assert_eq!(
        setups[0].stones,
        vec![Stone { x: 0, y: 0, color: 1 }, Stone { x: 1, y: 1, color: 2 }]
    );
    assert_eq!(setups[1].player, 2);
    assert_eq!(setups[1].stones, vec![Stone { x: 1, y: 1, color: 2 }]);
    let bad = ScoreEstimateRequest {
        boards: vec![board(&["1,1"], None), board(&["1,y"], None), board(&["z"], None)],
    };
    let e = estimate_with_score_estimator(&bad).err().unwrap();
    assert_eq!(e.message(), "Invalid y coordinate");
}

#[test]
fn dead_stones_are_paired_and_flattened() {
    assert_eq!(get_dead_stones(&vec![1, 2, 3, 4, 5, 6], 2), vec![(1, 2), (3, 4)]);
    assert_eq!(get_dead_stones(&vec![1, 2, 3, 4, 5, 6], 3), vec![(1, 2), (3, 4), (5, 6)]);
    assert_eq!(get_dead_stones(&vec![1, 2, 3, 4, 5], 9), vec![(1, 2), (3, 4)]);
    assert!(get_dead_stones(&vec![1, 2], 0).is_empty());
    assert!(get_dead_stones(&vec![1, 2], -1).is_empty());
    assert_eq!(flatten_dead_stones(&vec![(1, 2), (3, 4)]), vec![1, 2, 3, 4]);
    assert!(flatten_dead_stones(&Vec::new()).is_empty());
    let pairs = vec![(0, 8), (7, -1), (i32::MAX, i32::MIN)];
    assert_eq!(get_dead_stones(&flatten_dead_stones(&pairs), 3), pairs);
}

#[test]
fn pages_of_the_lobby() {
    assert_eq!(page_window(None, None), Window { limit: 20, offset: 0 });
    assert_eq!(page_window(Some(3), Some(10)), Window { limit: 10, offset: 20 });
    assert_eq!(page_window(Some(0), Some(0)), Window { limit: 1, offset: 0 });
    assert_eq!(page_window(Some(-5), Some(500)), Window { limit: 100, offset: 0 });
    assert_eq!(
        page_window(Some(i32::MAX), Some(100)),
        Window { limit: 100, offset: 214_748_364_600 }
    );
    let req = ListRoomsRequest { model: Some(9), page: Some(2), size: None };
    assert_eq!(list_rooms(&req), Window { limit: 20, offset: 20 });
}

#[test]
fn leaderboards_exist_for_the_sizes_that_are_played() {
    for model in [7, 9, 13, 19] {
        assert_eq!(get_leaderboard(&GetLeaderboardRequest { model, limit: None }), Ok(50));
        assert_eq!(get_leaderboard(&GetLeaderboardRequest { model, limit: Some(3) }), Ok(3));
    }
    for model in [0, 8, 10, 21, -9] {
        assert_eq!(
            get_leaderboard(&GetLeaderboardRequest { model, limit: Some(3) }),
            Err(LobbyError::InvalidModel)
        );
    }
}

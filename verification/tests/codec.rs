use quantum_go_api::codec::{
    color_to_gtp, gtp_to_xy, parse_metric, xy_to_gtp, CodecError, Metric,
};
use quantum_go_api::number::{parse_integer, parse_scaled, push_decimal, push_scaled};
use quantum_go_api::text::{chars_of, split_words, string_of, trim};

fn chars(s: &str) -> Vec<char> {
    s.chars().collect()
}

fn scaled(v: i64) -> String {
    let mut out: Vec<char> = Vec::new();
    push_scaled(&mut out, v);
    out.into_iter().collect()
}

#[test]
fn corners_of_a_nine_board() {
    assert_eq!(xy_to_gtp("1,1", 9), Ok("A9".to_string()));
    assert_eq!(xy_to_gtp("9,9", 9), Ok("J1".to_string()));
}

#[test]
fn the_letter_i_is_skipped() {
    assert_eq!(xy_to_gtp("1,8", 19), Ok("H19".to_string()));
    assert_eq!(xy_to_gtp("1,9", 19), Ok("J19".to_string()));
    assert_eq!(xy_to_gtp("19,19", 19), Ok("T1".to_string()));
    assert_eq!(gtp_to_xy("H19", 19), Ok("1,8".to_string()));
    assert_eq!(gtp_to_xy("J19", 19), Ok("1,9".to_string()));
    assert_eq!(gtp_to_xy("T1", 19), Ok("19,19".to_string()));
}

#[test]
fn positions_off_the_board_are_refused() {
    for size in [7u8, 9, 13, 19] {
        let n = size as i32;
        for (x, y) in [(0, 1), (1, 0), (n + 1, 1), (1, n + 1), (-1, 1), (1, -3), (257, 1), (1, 257)] {
            let pos = format!("{},{}", x, y);
            assert_eq!(xy_to_gtp(&pos, size), Err(CodecError::PosOutOfBounds));
        }
        assert!(xy_to_gtp(&format!("{},{}", n, n), size).is_ok());
        assert!(xy_to_gtp("1,1", size).is_ok());
    }
}

#[test]
fn every_position_survives_the_round_trip() {
    for size in [7u8, 9, 13, 19, 25] {
        for x in 1..=size {
            for y in 1..=size {
                let pos = format!("{},{}", x, y);
                let coord = xy_to_gtp(&pos, size).unwrap();
                assert_eq!(gtp_to_xy(&coord, size), Ok(pos));
            }
        }
    }
}

#[test]
fn a_column_beyond_the_letters_does_not_survive() {
    let coord = xy_to_gtp("1,26", 26).unwrap();
    assert_eq!(coord, "[26");
    assert_eq!(gtp_to_xy(&coord, 26), Err(CodecError::BadGtp));
    let coord = xy_to_gtp("1,32", 32).unwrap();
    assert_eq!(coord, "a32");
    assert_eq!(gtp_to_xy(&coord, 32), Ok("1,1".to_string()));
}

#[test]
fn the_skipped_letter_names_no_column() {
    assert_eq!(gtp_to_xy("I5", 9), Err(CodecError::BadGtp));
    assert_eq!(gtp_to_xy("i5", 19), Err(CodecError::BadGtp));
    assert_eq!(gtp_to_xy("H5", 9), Ok("5,8".to_string()));
    assert_eq!(gtp_to_xy("J5", 9), Ok("5,9".to_string()));
    assert_eq!(gtp_to_xy("Z1", 25), Ok("25,25".to_string()));
    for size in [7u8, 9, 13, 19, 25, 200, 255] {
        for first in ['I', '1', '@', '[', '`', '{', '\u{e9}', '\u{c9}', '\u{130}', ' ', '-'] {
            let coord = format!("{}1", first);
            assert!(gtp_to_xy(&coord, size).is_err());
        }
    }
}

#[test]
fn different_coordinates_are_different_positions() {
    let size = 25u8;
    let mut seen: Vec<String> = Vec::new();
    for letter in "ABCDEFGHJKLMNOPQRSTUVWXYZ".chars() {
        for row in 1..=size {
            let coord = format!("{}{}", letter, row);
            let position = gtp_to_xy(&coord, size).unwrap();
            assert!(!seen.contains(&position));
            assert_eq!(xy_to_gtp(&position, size), Ok(coord));
            seen.push(position);
        }
    }
    assert_eq!(seen.len(), 625);
}

#[test]
fn internal_positions_are_trimmed_and_may_carry_a_sign() {
    assert_eq!(xy_to_gtp(" 3 , 4 ", 9), Ok("D7".to_string()));
    assert_eq!(xy_to_gtp("+3,4", 9), Ok("D7".to_string()));
    assert_eq!(xy_to_gtp("3,4,5", 9), Err(CodecError::InvalidY));
}

#[test]
fn malformed_internal_positions() {
    assert_eq!(xy_to_gtp("34", 9), Err(CodecError::InvalidPos));
    assert_eq!(xy_to_gtp("", 9), Err(CodecError::InvalidPos));
    assert_eq!(xy_to_gtp("a,4", 9), Err(CodecError::InvalidX));
    assert_eq!(xy_to_gtp(",4", 9), Err(CodecError::InvalidX));
    assert_eq!(xy_to_gtp("3,b", 9), Err(CodecError::InvalidY));
    assert_eq!(xy_to_gtp("3,", 9), Err(CodecError::InvalidY));
    assert_eq!(xy_to_gtp("99999999999,1", 9), Err(CodecError::InvalidX));
    assert_eq!(xy_to_gtp("3,4", 0), Err(CodecError::PosOutOfBounds));
}

#[test]
fn protocol_coordinates_are_read() {
    assert_eq!(gtp_to_xy("D4", 9), Ok("6,4".to_string()));
    assert_eq!(gtp_to_xy(" d4\n", 9), Ok("6,4".to_string()));
    assert_eq!(gtp_to_xy("A9", 9), Ok("1,1".to_string()));
    assert_eq!(gtp_to_xy("J1", 9), Ok("9,9".to_string()));
}

#[test]
fn pass_and_resign_come_back_capitalised() {
    assert_eq!(gtp_to_xy("pass", 9), Ok("PASS".to_string()));
    assert_eq!(gtp_to_xy(" Resign ", 9), Ok("RESIGN".to_string()));
    assert_eq!(gtp_to_xy("PASS", 19), Ok("PASS".to_string()));
}

#[test]
fn malformed_protocol_coordinates() {
    assert_eq!(gtp_to_xy("", 9), Err(CodecError::BadGtp));
    assert_eq!(gtp_to_xy("D", 9), Err(CodecError::BadGtp));
    assert_eq!(gtp_to_xy("Dx", 9), Err(CodecError::BadRow));
    assert_eq!(gtp_to_xy("D 4", 9), Err(CodecError::BadRow));
    assert_eq!(gtp_to_xy("D0", 9), Err(CodecError::GtpOutOfBounds));
    assert_eq!(gtp_to_xy("D10", 9), Err(CodecError::GtpOutOfBounds));
    assert_eq!(gtp_to_xy("K1", 9), Err(CodecError::GtpOutOfBounds));
    assert_eq!(gtp_to_xy("15", 9), Err(CodecError::BadGtp));
    assert_eq!(gtp_to_xy("\u{e9}5", 9), Err(CodecError::BadGtp));
    assert_eq!(gtp_to_xy("\u{e9}5", 255), Err(CodecError::BadGtp));
    assert_eq!(gtp_to_xy("1x", 9), Err(CodecError::BadRow));
    assert_eq!(gtp_to_xy("D-2147483648", 9), Err(CodecError::GtpOutOfBounds));
}

#[test]
fn error_messages() {
    assert_eq!(CodecError::InvalidPos.message(), "invalid pos");
    assert_eq!(CodecError::InvalidX.message(), "invalid x");
    assert_eq!(CodecError::InvalidY.message(), "invalid y");
    assert_eq!(CodecError::PosOutOfBounds.message(), "pos out of bounds");
    assert_eq!(CodecError::BadGtp.message(), "bad gtp");
    assert_eq!(CodecError::BadRow.message(), "bad row");
    assert_eq!(CodecError::GtpOutOfBounds.message(), "gtp out of bounds");
}

#[test]
fn colours() {
    assert_eq!(color_to_gtp("black"), "B");
    assert_eq!(color_to_gtp("b"), "B");
    assert_eq!(color_to_gtp("white"), "W");
    assert_eq!(color_to_gtp("W"), "W");
    assert_eq!(color_to_gtp("WHITE"), "W");
    assert_eq!(color_to_gtp("green"), "B");
    assert_eq!(color_to_gtp(""), "B");
}

#[test]
fn metrics() {
    assert_eq!(parse_metric(Some("winrate")), Metric::Winrate);
    assert_eq!(parse_metric(Some("WinRate")), Metric::Winrate);
    assert_eq!(parse_metric(Some("score_lead")), Metric::ScoreLead);
    assert_eq!(parse_metric(Some("")), Metric::ScoreLead);
    assert_eq!(parse_metric(None), Metric::ScoreLead);
}

#[test]
fn integers_are_read_as_rust_reads_them() {
    let lo = i64::MIN;
    let hi = i64::MAX;
    assert_eq!(parse_integer(&chars("0"), lo, hi), Some(0));
    assert_eq!(parse_integer(&chars("-0"), lo, hi), Some(0));
    assert_eq!(parse_integer(&chars("+17"), lo, hi), Some(17));
    assert_eq!(parse_integer(&chars("-17"), lo, hi), Some(-17));
    assert_eq!(parse_integer(&chars("0000000000000000000000012"), lo, hi), Some(12));
    assert_eq!(parse_integer(&chars("9223372036854775807"), lo, hi), Some(i64::MAX));
    assert_eq!(parse_integer(&chars("9223372036854775808"), lo, hi), None);
    assert_eq!(parse_integer(&chars("-9223372036854775808"), lo, hi), Some(i64::MIN));
    assert_eq!(parse_integer(&chars("-9223372036854775809"), lo, hi), None);
    assert_eq!(parse_integer(&chars(""), lo, hi), None);
    assert_eq!(parse_integer(&chars("+"), lo, hi), None);
    assert_eq!(parse_integer(&chars("-"), lo, hi), None);
    assert_eq!(parse_integer(&chars("1 "), lo, hi), None);
    assert_eq!(parse_integer(&chars("1.0"), lo, hi), None);
    assert_eq!(parse_integer(&chars("--1"), lo, hi), None);
    assert_eq!(parse_integer(&chars("300"), -128, 127), None);
    assert_eq!(parse_integer(&chars("127"), -128, 127), Some(127));
    assert_eq!(parse_integer(&chars("-128"), -128, 127), Some(-128));
}

#[test]
fn fixed_point_numbers_are_read() {
    assert_eq!(parse_scaled(&chars("60.0")), Some(600_000));
    assert_eq!(parse_scaled(&chars("45.0")), Some(450_000));
    assert_eq!(parse_scaled(&chars("-2.3")), Some(-23_000));
    assert_eq!(parse_scaled(&chars("+2.3")), Some(23_000));
    assert_eq!(parse_scaled(&chars("7")), Some(70_000));
    assert_eq!(parse_scaled(&chars("7.")), Some(70_000));
    assert_eq!(parse_scaled(&chars(".5")), Some(5_000));
    assert_eq!(parse_scaled(&chars("0.45678")), Some(4_567));
    assert_eq!(parse_scaled(&chars("-0.00009")), Some(0));
    assert_eq!(parse_scaled(&chars("54.32")), Some(543_200));
    assert_eq!(parse_scaled(&chars("100000000")), Some(1_000_000_000_000));
    assert_eq!(parse_scaled(&chars("100000000.0001")), None);
    assert_eq!(parse_scaled(&chars("")), None);
    assert_eq!(parse_scaled(&chars(".")), None);
    assert_eq!(parse_scaled(&chars("-")), None);
    assert_eq!(parse_scaled(&chars("1e")), None);
    assert_eq!(parse_scaled(&chars("e5")), None);
    assert_eq!(parse_scaled(&chars(".e1")), None);
    assert_eq!(parse_scaled(&chars("1e5x")), None);
    assert_eq!(parse_scaled(&chars("1e1e1")), None);
    assert_eq!(parse_scaled(&chars("1e 5")), None);
    assert_eq!(parse_scaled(&chars("inf")), None);
    assert_eq!(parse_scaled(&chars("1.2.3")), None);
    assert_eq!(parse_scaled(&chars("nan")), None);
    assert_eq!(parse_scaled(&chars("60.0%")), None);
}

#[test]
fn fixed_point_numbers_with_an_exponent_are_read() {
    assert_eq!(parse_scaled(&chars("1e5")), Some(1_000_000_000));
    assert_eq!(parse_scaled(&chars("1E5")), Some(1_000_000_000));
    assert_eq!(parse_scaled(&chars("1e+2")), Some(1_000_000));
    assert_eq!(parse_scaled(&chars("1.5e2")), Some(1_500_000));
    assert_eq!(parse_scaled(&chars("-1.5e-1")), Some(-1_500));
    assert_eq!(parse_scaled(&chars("1e-4")), Some(1));
    assert_eq!(parse_scaled(&chars("9.99e-5")), Some(0));
    assert_eq!(parse_scaled(&chars("3.2e-05")), Some(0));
    assert_eq!(parse_scaled(&chars("12345678e-4")), Some(12_345_678));
    assert_eq!(parse_scaled(&chars("123456789e-12")), Some(1));
    assert_eq!(parse_scaled(&chars("0.000123456e4")), Some(12_345));
    assert_eq!(parse_scaled(&chars("1e8")), Some(1_000_000_000_000));
    assert_eq!(parse_scaled(&chars("1.00000001e8")), None);
    assert_eq!(parse_scaled(&chars("1e9")), None);
    assert_eq!(parse_scaled(&chars("0e0")), Some(0));
    assert_eq!(parse_scaled(&chars("5.e0")), Some(50_000));
    assert_eq!(parse_scaled(&chars(".5e1")), Some(50_000));
    assert_eq!(parse_scaled(&chars("0e99999999999999999999999999999999999999")), Some(0));
    assert_eq!(parse_scaled(&chars("0.0e-99999999999999999999999999999999999999")), Some(0));
    assert_eq!(parse_scaled(&chars("1e99999999999999999999999999999999999999")), None);
    assert_eq!(parse_scaled(&chars("-7e-99999999999999999999999999999999999999")), Some(0));
    assert_eq!(parse_scaled(&chars("1e100000000000000000000")), None);
    assert_eq!(parse_scaled(&chars("1e-100000000000000000000")), Some(0));
    let long = format!("0.{}1e2005", "0".repeat(2000));
    assert_eq!(parse_scaled(&chars(&long)), Some(100_000_000));
    let wide = format!("1{}e-1996", "0".repeat(2000));
    assert_eq!(parse_scaled(&chars(&wide)), Some(100_000_000));
}

#[test]
fn numbers_are_written() {
    let mut out: Vec<char> = Vec::new();
    push_decimal(&mut out, 0);
    push_decimal(&mut out, 19);
    push_decimal(&mut out, u64::MAX);
    assert_eq!(out.into_iter().collect::<String>(), "01918446744073709551615");
    assert_eq!(scaled(75_000), "7.5");
    assert_eq!(scaled(70_000), "7");
    assert_eq!(scaled(0), "0");
    assert_eq!(scaled(-5_000), "-0.5");
    assert_eq!(scaled(1), "0.0001");
    assert_eq!(scaled(65_500), "6.55");
    assert_eq!(scaled(-10_000_000), "-1000");
    assert_eq!(scaled(i64::MIN), "-922337203685477.5808");
}

#[test]
fn what_is_written_is_read_back() {
    for v in [0i64, 1, -1, 75_000, -23_000, 999_999_999_999, -1_000_000_000_000, 10_001] {
        assert_eq!(parse_scaled(&chars(&scaled(v))), Some(v));
    }
}

#[test]
fn text_helpers() {
    assert_eq!(chars_of("a\u{e9}z"), vec!['a', '\u{e9}', 'z']);
    assert_eq!(string_of(&chars("D16")), "D16");
    assert_eq!(trim(&chars(" \t= D4 \r\n")), chars("= D4"));
    assert_eq!(trim(&chars("\u{a0}x\u{3000}")), chars("x"));
    assert_eq!(trim(&chars("   ")), chars(""));
    let words = split_words(&chars("  info move  D4\tvisits 50 \n"));
    assert_eq!(words, vec![chars("info"), chars("move"), chars("D4"), chars("visits"), chars("50")]);
    assert!(split_words(&chars(" \n ")).is_empty());
}

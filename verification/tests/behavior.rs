use shogi_csa::parse_csa;
use shogi_csa::value::{Action, Color, Date, Duration, PieceType, Square, Time, TimeLimit,
    TimeOfDay};

#[test]
fn test_full_scenario() {
    // The whole pipeline on one small record: players, metadata, a timed
    // move, and a resignation without timing.
    let csa = "V2.2\nN+NAKAHARA\nN-YONENAGA\n$EVENT:Test\nPI\n+\n+2726FU\nT12\n%TORYO\n";
    let record = parse_csa(csa).unwrap();
    assert_eq!(record.black_player, Some("NAKAHARA".to_string()));
    assert_eq!(record.white_player, Some("YONENAGA".to_string()));
    assert_eq!(record.event, Some("Test".to_string()));
    assert_eq!(record.moves.len(), 2);
    assert_eq!(
        record.moves[0].action,
        Action::Move(Color::Black, Square::new(2, 7), Square::new(2, 6), PieceType::Pawn)
    );
    assert_eq!(record.moves[0].time, Some(Duration::from_secs(12)));
    assert_eq!(record.moves[1].action, Action::Toryo);
    assert_eq!(record.moves[1].time, None);
}

#[test]
fn test_drop_move_sentinel() {
    let record = parse_csa("V2.2\nPI\n+\n-0053FU\n").unwrap();
    assert_eq!(
        record.moves[0].action,
        Action::Move(Color::White, Square::new(0, 0), Square::new(5, 3), PieceType::Pawn)
    );
}

#[test]
fn test_time_limit_free_text() {
    let record = parse_csa("V2.2\n$TIME_LIMIT:00:25+60\nPI\n+\n").unwrap();
    assert_eq!(
        record.time_limit,
        Some(TimeLimit {
            main_time: Duration::from_secs(25 * 60),
            byoyomi: Duration::from_secs(60),
        })
    );
}

#[test]
fn test_time_limit_same_value_in_every_dialect() {
    // The same attribute value normalizes identically whichever dialect's
    // grammar carried it.
    let expected = Some(TimeLimit {
        main_time: Duration::from_secs(25 * 60),
        byoyomi: Duration::from_secs(60),
    });
    let r2 = shogi_csa::v2::parse("V2\n$TIME_LIMIT:00:25+60\nPI\n+\n").unwrap();
    let r22 = shogi_csa::v2_2::parse("V2.2\n$TIME_LIMIT:00:25+60\nPI\n+\n").unwrap();
    let r3 = shogi_csa::v3::parse("V3.0\n$TIME_LIMIT:00:25+60\nPI\n+\n").unwrap();
    assert_eq!(r2.time_limit, expected);
    assert_eq!(r22.time_limit, expected);
    assert_eq!(r3.time_limit, expected);
}

#[test]
fn test_malformed_time_limit_is_absent() {
    let record = parse_csa("V2.2\n$TIME_LIMIT:half an hour\nPI\n+\n").unwrap();
    assert_eq!(record.time_limit, None);
}

#[test]
fn test_start_time_with_clock() {
    let record = parse_csa("V2.2\n$START_TIME:2006/01/07 09:12:30\nPI\n+\n").unwrap();
    assert_eq!(
        record.start_time,
        Some(Time {
            date: Date { year: 2006, month: 1, day: 7 },
            time: Some(TimeOfDay { hour: 9, minute: 12, second: 30 }),
        })
    );
}

#[test]
fn test_start_time_date_only() {
    let record = parse_csa("V2.2\n$START_TIME:2006/01/07\nPI\n+\n").unwrap();
    assert_eq!(
        record.start_time,
        Some(Time { date: Date { year: 2006, month: 1, day: 7 }, time: None })
    );
}

#[test]
fn test_leap_year_dates() {
    let ok = parse_csa("V2.2\n$START_TIME:2024/02/29\nPI\n+\n").unwrap();
    assert_eq!(
        ok.start_time,
        Some(Time { date: Date { year: 2024, month: 2, day: 29 }, time: None })
    );
    let bad = parse_csa("V2.2\n$START_TIME:2023/02/29\nPI\n+\n").unwrap();
    assert_eq!(bad.start_time, None);
    let century = parse_csa("V2.2\n$END_TIME:1900/02/29\nPI\n+\n").unwrap();
    assert_eq!(century.end_time, None);
    let quadricentennial = parse_csa("V2.2\n$END_TIME:2000/02/29\nPI\n+\n").unwrap();
    assert_eq!(
        quadricentennial.end_time,
        Some(Time { date: Date { year: 2000, month: 2, day: 29 }, time: None })
    );
}

#[test]
fn test_invalid_clock_time_rejects_value() {
    let record = parse_csa("V2.2\n$START_TIME:2006/01/07 25:00:00\nPI\n+\n").unwrap();
    assert_eq!(record.start_time, None);
}

#[test]
fn test_signed_illegal_action_events() {
    let black = parse_csa("V2.2\nPI\n+\n%+ILLEGAL_ACTION\n").unwrap();
    assert_eq!(black.moves[0].action, Action::IllegalAction(Color::Black));
    let white = parse_csa("V2.2\nPI\n+\n%-ILLEGAL_ACTION\n").unwrap();
    assert_eq!(white.moves[0].action, Action::IllegalAction(Color::White));
    let unsigned = parse_csa("V2.2\nPI\n+\n%ILLEGAL_MOVE\n").unwrap();
    assert_eq!(unsigned.moves[0].action, Action::IllegalMove);
}

#[test]
fn test_retracted_move_is_legacy_only() {
    let old = shogi_csa::v2::parse("V2\nPI\n+\n%MATTA\n").unwrap();
    assert_eq!(old.moves[0].action, Action::Matta);
    let older = shogi_csa::v2_1::parse("V2.1\nPI\n+\n%MATTA\n").unwrap();
    assert_eq!(older.moves[0].action, Action::Matta);
    let newer = shogi_csa::v2_2::parse("V2.2\nPI\n+\n%MATTA\n").unwrap();
    assert_eq!(newer.moves[0].action, Action::Error);
}

#[test]
fn test_move_count_limit_is_newest_only() {
    let newest = shogi_csa::v3::parse("V3.0\nPI\n+\n%MAX_MOVES\n").unwrap();
    assert_eq!(newest.moves[0].action, Action::MaxMoves);
    let older = shogi_csa::v2_2::parse("V2.2\nPI\n+\n%MAX_MOVES\n").unwrap();
    assert_eq!(older.moves[0].action, Action::Error);
}

#[test]
fn test_unrecognized_event_is_not_a_failure() {
    let record = parse_csa("V2.2\nPI\n+\n%SOMETHING_ELSE\n").unwrap();
    assert_eq!(record.moves[0].action, Action::Error);
}

#[test]
fn test_handicap_pairs() {
    let record = parse_csa("V2.2\nPI82HI22KA\n+\n").unwrap();
    assert_eq!(
        record.start_pos.drop_pieces,
        vec![
            (Square::new(8, 2), PieceType::Rook),
            (Square::new(2, 2), PieceType::Bishop),
        ]
    );
}

#[test]
fn test_standard_grid() {
    let csa = "V2.2\nP1-KY-KE-GI-KI-OU-KI-GI-KE-KY\nP2 * -HI *  *  *  *  * -KA * \nP3-FU-FU-FU-FU-FU-FU-FU-FU-FU\nP4 *  *  *  *  *  *  *  *  * \nP5 *  *  *  *  *  *  *  *  * \nP6 *  *  *  *  *  *  *  *  * \nP7+FU+FU+FU+FU+FU+FU+FU+FU+FU\nP8 * +KA *  *  *  *  * +HI * \nP9+KY+KE+GI+KI+OU+KI+GI+KE+KY\n+\n";
    let record = parse_csa(csa).unwrap();
    assert!(record.start_pos.bulk.is_some());
    assert!(record.start_pos.minishogi_bulk.is_none());
    assert!(record.start_pos.wildcat_bulk.is_none());
    let grid = record.start_pos.bulk.unwrap();
    assert_eq!(grid[0][0], Some((Color::White, PieceType::Lance)));
    assert_eq!(grid[1][1], Some((Color::White, PieceType::Rook)));
    assert_eq!(grid[8][4], Some((Color::Black, PieceType::King)));
    assert_eq!(grid[4][4], None);
}

#[test]
fn test_reduced_grid_needs_its_dialect() {
    // Only one dialect admits the reduced board shapes.
    let csa = "V3.0\nP1-KA-OU-HI\nP2-FU * -FU\nP3 *  *  * \nP4+FU * +FU\nP5+HI+OU+KA\n+\n";
    assert!(parse_csa(csa).is_err());
}

#[test]
fn test_empty_player_name_is_absent() {
    let record = parse_csa("V2.2\nN+\nN-Gote\nPI\n+\n").unwrap();
    assert_eq!(record.black_player, None);
    assert_eq!(record.white_player, Some("Gote".to_string()));
}

#[test]
fn test_side_to_move() {
    let black = parse_csa("V2.2\nPI\n+\n").unwrap();
    assert_eq!(black.start_pos.side_to_move, Color::Black);
    let white = parse_csa("V2.2\nPI\n-\n").unwrap();
    assert_eq!(white.start_pos.side_to_move, Color::White);
}

#[test]
fn test_grammar_violations() {
    assert!(parse_csa("V2.2\nwhat is this line\n").is_err());
    assert!(parse_csa("V2.2\n+77FU\n").is_err());
    assert!(parse_csa("V2.2\n+7776XX\n").is_err());
    assert!(parse_csa("V2.2\n$EVENT no colon\n").is_err());
    assert!(parse_csa("V2.2\nT\n").is_err());
    assert!(parse_csa("V2.2\nPI82H\n").is_err());
}

#[test]
fn test_unknown_attribute_is_ignored() {
    let record = parse_csa("V2.2\n$UNKNOWN:whatever\nPI\n+\n").unwrap();
    assert_eq!(record.event, None);
    assert_eq!(record.site, None);
}

#[test]
fn test_site_and_opening() {
    let record = parse_csa("V2.2\n$SITE:Tokyo\n$OPENING:SIKENBISYA\nPI\n+\n").unwrap();
    assert_eq!(record.site, Some("Tokyo".to_string()));
    assert_eq!(record.opening, Some("SIKENBISYA".to_string()));
}

#[test]
fn test_comments_are_ignored_everywhere() {
    let record = parse_csa("'leading comment\nV2.2\n'between\nPI\n+\n+2726FU\n'after\n").unwrap();
    assert_eq!(record.moves.len(), 1);
}

#[test]
fn test_moves_pair_with_following_time() {
    let record = parse_csa("V2.2\nPI\n+\n+2726FU\n-8384FU\nT7\n%CHUDAN\n").unwrap();
    assert_eq!(record.moves.len(), 3);
    assert_eq!(record.moves[0].time, None);
    assert_eq!(record.moves[1].time, Some(Duration::from_secs(7)));
    assert_eq!(record.moves[2].action, Action::Chudan);
    assert_eq!(record.moves[2].time, None);
}

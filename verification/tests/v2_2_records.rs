use shogi_csa::v2_2::parse;
use shogi_csa::value::{Action, Color, Duration, PieceType, Square};

#[test]
fn test_parse_simple() {
    let csa = "V2.2\nPI\n+\n+2726FU\n";
    let result = parse(csa);
    assert!(result.is_ok(), "Failed: {:?}", result);
}

#[test]
fn test_parse_with_metadata() {
    let csa = "V2.2\nN+NAKAHARA\nN-YONENAGA\n$EVENT:Test\nPI\n+\n+2726FU\nT12\n%TORYO\n";
    let result = parse(csa);
    assert!(result.is_ok(), "Failed: {:?}", result);

    let record = result.unwrap();
    assert_eq!(record.black_player, Some("NAKAHARA".to_string()));
    assert_eq!(record.white_player, Some("YONENAGA".to_string()));
    assert_eq!(record.moves.len(), 2);
}

/// A 5x5 starting position written with piece placements: `PI` clears the
/// standard position and `P+`/`P-` lines place each side's pieces.
#[test]
fn test_minishogi_piece_placements() {
    let csa = "V2.2\nN+Sente\nN-Gote\n$EVENT:Minishogi Game\nPI\nP-51OU41KI31GI21KA11HI12FU\nP+55HI45KA35GI25KI15OU54FU\n+\n+5453FU\nT5\n-1213FU\nT3\n%TORYO\n";

    let result = parse(csa);
    assert!(result.is_ok(), "Failed to parse minishogi: {:?}", result);

    let record = result.unwrap();
    assert_eq!(record.black_player, Some("Sente".to_string()));
    assert_eq!(record.white_player, Some("Gote".to_string()));
    assert_eq!(record.event, Some("Minishogi Game".to_string()));

    assert_eq!(record.start_pos.add_pieces.len(), 12);

    assert!(record.start_pos.add_pieces.contains(&(
        Color::White,
        Square::new(5, 1),
        PieceType::King
    )));
    assert!(record.start_pos.add_pieces.contains(&(
        Color::Black,
        Square::new(1, 5),
        PieceType::King
    )));
    assert!(record.start_pos.add_pieces.contains(&(
        Color::Black,
        Square::new(5, 4),
        PieceType::Pawn
    )));

    assert_eq!(record.moves.len(), 3);

    assert_eq!(
        record.moves[0].action,
        Action::Move(Color::Black, Square::new(5, 4), Square::new(5, 3), PieceType::Pawn)
    );
    assert_eq!(record.moves[0].time, Some(Duration::from_secs(5)));

    assert_eq!(
        record.moves[1].action,
        Action::Move(Color::White, Square::new(1, 2), Square::new(1, 3), PieceType::Pawn)
    );

    assert_eq!(record.moves[2].action, Action::Toryo);
}

#[test]
fn test_minishogi_with_drops() {
    let csa = "V2.2\n$EVENT:Minishogi Drop Test\nPI\nP-51OU41KI31GI21KA11HI12FU\nP+55HI45KA35GI25KI15OU54FU\n+\n+5453FU\n-1213FU\n+5352FU\n-0053FU\n%TORYO\n";

    let result = parse(csa);
    assert!(result.is_ok(), "Failed to parse minishogi with drops: {:?}", result);

    let record = result.unwrap();

    // A drop move carries the (0, 0) sentinel origin.
    assert_eq!(
        record.moves[3].action,
        Action::Move(Color::White, Square::new(0, 0), Square::new(5, 3), PieceType::Pawn)
    );
}

/// A 5x5 board written in the native grid form.
#[test]
fn test_minishogi_grid_format() {
    let csa = "V2.2\nN+Sente\nN-Gote\n$EVENT:Minishogi Grid Test\nP1-HI-KA-GI-KI-OU\nP2 *  *  *  * -FU\nP3 *  *  *  *  * \nP4+FU *  *  *  * \nP5+OU+KI+GI+KA+HI\n+\n+5453FU\nT5\n-1213FU\nT3\n%TORYO\n";

    let result = parse(csa);
    assert!(result.is_ok(), "Failed to parse minishogi grid: {:?}", result);

    let record = result.unwrap();
    assert_eq!(record.black_player, Some("Sente".to_string()));
    assert_eq!(record.white_player, Some("Gote".to_string()));

    assert!(record.start_pos.minishogi_bulk.is_some());
    assert!(record.start_pos.bulk.is_none());

    let grid = record.start_pos.minishogi_bulk.unwrap();

    assert_eq!(grid[0][0], Some((Color::White, PieceType::Rook)));
    assert_eq!(grid[0][1], Some((Color::White, PieceType::Bishop)));
    assert_eq!(grid[0][2], Some((Color::White, PieceType::Silver)));
    assert_eq!(grid[0][3], Some((Color::White, PieceType::Gold)));
    assert_eq!(grid[0][4], Some((Color::White, PieceType::King)));

    assert_eq!(grid[1][4], Some((Color::White, PieceType::Pawn)));
    assert_eq!(grid[1][0], None);

    for col in 0..5 {
        assert_eq!(grid[2][col], None);
    }

    assert_eq!(grid[3][0], Some((Color::Black, PieceType::Pawn)));

    assert_eq!(grid[4][0], Some((Color::Black, PieceType::King)));
    assert_eq!(grid[4][4], Some((Color::Black, PieceType::Rook)));

    assert_eq!(record.moves.len(), 3);
    assert_eq!(
        record.moves[0].action,
        Action::Move(Color::Black, Square::new(5, 4), Square::new(5, 3), PieceType::Pawn)
    );
}

/// Writing a parsed 5x5 board out and parsing it again reproduces the grid.
#[test]
fn test_minishogi_grid_roundtrip() {
    let csa = "V2.2\nP1-HI-KA-GI-KI-OU\nP2 *  *  *  * -FU\nP3 *  *  *  *  * \nP4+FU *  *  *  * \nP5+OU+KI+GI+KA+HI\n+\n";

    let result = parse(csa);
    assert!(result.is_ok(), "Failed to parse: {:?}", result);

    let record = result.unwrap();
    let serialized = record.start_pos.to_csa();

    let result2 = parse(&serialized);
    assert!(result2.is_ok(), "Failed to re-parse: {:?}", result2);

    let record2 = result2.unwrap();
    assert_eq!(record.start_pos.minishogi_bulk, record2.start_pos.minishogi_bulk);
}

/// A 3x5 board written in the native grid form.
#[test]
fn test_wildcat_grid_format() {
    let csa = "V2.2\nN+Sente\nN-Gote\n$EVENT:Wild Cat Shogi Game\nP1-KA-OU-HI\nP2-FU * -FU\nP3 *  *  * \nP4+FU * +FU\nP5+HI+OU+KA\n+\n+3433FU\nT5\n-1213FU\nT3\n%TORYO\n";

    let result = parse(csa);
    assert!(result.is_ok(), "Failed to parse wildcat grid: {:?}", result);

    let record = result.unwrap();
    assert_eq!(record.black_player, Some("Sente".to_string()));
    assert_eq!(record.white_player, Some("Gote".to_string()));

    assert!(record.start_pos.wildcat_bulk.is_some());
    assert!(record.start_pos.bulk.is_none());
    assert!(record.start_pos.minishogi_bulk.is_none());

    let grid = record.start_pos.wildcat_bulk.unwrap();

    assert_eq!(grid[0][0], Some((Color::White, PieceType::Bishop)));
    assert_eq!(grid[0][1], Some((Color::White, PieceType::King)));
    assert_eq!(grid[0][2], Some((Color::White, PieceType::Rook)));

    assert_eq!(grid[1][0], Some((Color::White, PieceType::Pawn)));
    assert_eq!(grid[1][1], None);
    assert_eq!(grid[1][2], Some((Color::White, PieceType::Pawn)));

    for col in 0..3 {
        assert_eq!(grid[2][col], None);
    }

    assert_eq!(grid[3][0], Some((Color::Black, PieceType::Pawn)));
    assert_eq!(grid[3][2], Some((Color::Black, PieceType::Pawn)));

    assert_eq!(grid[4][0], Some((Color::Black, PieceType::Rook)));
    assert_eq!(grid[4][1], Some((Color::Black, PieceType::King)));
    assert_eq!(grid[4][2], Some((Color::Black, PieceType::Bishop)));

    assert_eq!(record.moves.len(), 3);
    assert_eq!(
        record.moves[0].action,
        Action::Move(Color::Black, Square::new(3, 4), Square::new(3, 3), PieceType::Pawn)
    );
}

#[test]
fn test_wildcat_with_drops() {
    let csa = "V2.2\n$EVENT:Wild Cat Drop Test\nP1-KA-OU-HI\nP2-FU * -FU\nP3 *  *  * \nP4+FU * +FU\nP5+HI+OU+KA\n+\n+3433FU\n-1213FU\n+3332TO\n-0033FU\n%TORYO\n";

    let result = parse(csa);
    assert!(result.is_ok(), "Failed to parse wildcat with drops: {:?}", result);

    let record = result.unwrap();

    assert_eq!(
        record.moves[2].action,
        Action::Move(Color::Black, Square::new(3, 3), Square::new(3, 2), PieceType::ProPawn)
    );

    assert_eq!(
        record.moves[3].action,
        Action::Move(Color::White, Square::new(0, 0), Square::new(3, 3), PieceType::Pawn)
    );
}

/// Writing a parsed 3x5 board out and parsing it again reproduces the grid.
#[test]
fn test_wildcat_grid_roundtrip() {
    let csa = "V2.2\nP1-KA-OU-HI\nP2-FU * -FU\nP3 *  *  * \nP4+FU * +FU\nP5+HI+OU+KA\n+\n";

    let result = parse(csa);
    assert!(result.is_ok(), "Failed to parse: {:?}", result);

    let record = result.unwrap();
    let serialized = record.start_pos.to_csa();

    let result2 = parse(&serialized);
    assert!(result2.is_ok(), "Failed to re-parse: {:?}", result2);

    let record2 = result2.unwrap();
    assert_eq!(record.start_pos.wildcat_bulk, record2.start_pos.wildcat_bulk);
}

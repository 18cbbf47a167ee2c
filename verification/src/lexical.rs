//! Lexical value converters: token text to color, square, piece type and
//! terminal event, plus the reverse piece-code table for serialization.

use vstd::prelude::*;

use crate::csa::Version;
use crate::text::{contains_seq, digit_val, is_digit, range_contains_str};
use crate::value::{Action, Color, PieceType, Square};

verus! {

/// The color a sign character denotes.
pub open spec fn color_of_sign(c: char) -> Color {
    if c == '+' {
        Color::Black
    } else {
        Color::White
    }
}

pub fn parse_color(c: char) -> (r: Color)
    ensures
        r == color_of_sign(c),
{
    if c == '+' {
        Color::Black
    } else {
        Color::White
    }
}

/// The piece a two-letter code denotes, if any.
pub open spec fn piece_of_code(a: char, b: char) -> Option<PieceType> {
    if a == 'F' && b == 'U' {
        Some(PieceType::Pawn)
    } else if a == 'K' && b == 'Y' {
        Some(PieceType::Lance)
    } else if a == 'K' && b == 'E' {
        Some(PieceType::Knight)
    } else if a == 'G' && b == 'I' {
        Some(PieceType::Silver)
    } else if a == 'K' && b == 'I' {
        Some(PieceType::Gold)
    } else if a == 'K' && b == 'A' {
        Some(PieceType::Bishop)
    } else if a == 'H' && b == 'I' {
        Some(PieceType::Rook)
    } else if a == 'O' && b == 'U' {
        Some(PieceType::King)
    } else if a == 'T' && b == 'O' {
        Some(PieceType::ProPawn)
    } else if a == 'N' && b == 'Y' {
        Some(PieceType::ProLance)
    } else if a == 'N' && b == 'K' {
        Some(PieceType::ProKnight)
    } else if a == 'N' && b == 'G' {
        Some(PieceType::ProSilver)
    } else if a == 'U' && b == 'M' {
        Some(PieceType::Horse)
    } else if a == 'R' && b == 'Y' {
        Some(PieceType::Dragon)
    } else if a == 'A' && b == 'L' {
        Some(PieceType::All)
    } else {
        None
    }
}

pub fn parse_piece_type(a: char, b: char) -> (r: Option<PieceType>)
    ensures
        r == piece_of_code(a, b),
{
    match (a, b) {
        ('F', 'U') => Some(PieceType::Pawn),
        ('K', 'Y') => Some(PieceType::Lance),
        ('K', 'E') => Some(PieceType::Knight),
        ('G', 'I') => Some(PieceType::Silver),
        ('K', 'I') => Some(PieceType::Gold),
        ('K', 'A') => Some(PieceType::Bishop),
        ('H', 'I') => Some(PieceType::Rook),
        ('O', 'U') => Some(PieceType::King),
        ('T', 'O') => Some(PieceType::ProPawn),
        ('N', 'Y') => Some(PieceType::ProLance),
        ('N', 'K') => Some(PieceType::ProKnight),
        ('N', 'G') => Some(PieceType::ProSilver),
        ('U', 'M') => Some(PieceType::Horse),
        ('R', 'Y') => Some(PieceType::Dragon),
        ('A', 'L') => Some(PieceType::All),
        _ => None,
    }
}

/// The two-letter code of a piece.
pub open spec fn code_of_piece(p: PieceType) -> Seq<char> {
    match p {
        PieceType::Pawn => seq!['F', 'U'],
        PieceType::Lance => seq!['K', 'Y'],
        PieceType::Knight => seq!['K', 'E'],
        PieceType::Silver => seq!['G', 'I'],
        PieceType::Gold => seq!['K', 'I'],
        PieceType::Bishop => seq!['K', 'A'],
        PieceType::Rook => seq!['H', 'I'],
        PieceType::King => seq!['O', 'U'],
        PieceType::ProPawn => seq!['T', 'O'],
        PieceType::ProLance => seq!['N', 'Y'],
        PieceType::ProKnight => seq!['N', 'K'],
        PieceType::ProSilver => seq!['N', 'G'],
        PieceType::Horse => seq!['U', 'M'],
        PieceType::Dragon => seq!['R', 'Y'],
        PieceType::All => seq!['A', 'L'],
    }
}

/// Every piece code reads back as the piece it was written for.
pub proof fn lemma_piece_code_roundtrip(p: PieceType)
    ensures
        piece_of_code(code_of_piece(p)[0], code_of_piece(p)[1]) == Some(p),
{
}

pub fn piece_code_str(p: PieceType) -> (r: &'static str)
    ensures
        r@ == code_of_piece(p),
{
    match p {
        PieceType::Pawn => {
            proof { reveal_strlit("FU"); }
            let r = "FU";
            proof { assert(r@ =~= code_of_piece(p)); }
            r
        },
        PieceType::Lance => {
            proof { reveal_strlit("KY"); }
            let r = "KY";
            proof { assert(r@ =~= code_of_piece(p)); }
            r
        },
        PieceType::Knight => {
            proof { reveal_strlit("KE"); }
            let r = "KE";
            proof { assert(r@ =~= code_of_piece(p)); }
            r
        },
        PieceType::Silver => {
            proof { reveal_strlit("GI"); }
            let r = "GI";
            proof { assert(r@ =~= code_of_piece(p)); }
            r
        },
        PieceType::Gold => {
            proof { reveal_strlit("KI"); }
            let r = "KI";
            proof { assert(r@ =~= code_of_piece(p)); }
            r
        },
        PieceType::Bishop => {
            proof { reveal_strlit("KA"); }
            let r = "KA";
            proof { assert(r@ =~= code_of_piece(p)); }
            r
        },
        PieceType::Rook => {
            proof { reveal_strlit("HI"); }
            let r = "HI";
            proof { assert(r@ =~= code_of_piece(p)); }
            r
        },
        PieceType::King => {
            proof { reveal_strlit("OU"); }
            let r = "OU";
            proof { assert(r@ =~= code_of_piece(p)); }
            r
        },
        PieceType::ProPawn => {
            proof { reveal_strlit("TO"); }
            let r = "TO";
            proof { assert(r@ =~= code_of_piece(p)); }
            r
        },
        PieceType::ProLance => {
            proof { reveal_strlit("NY"); }
            let r = "NY";
            proof { assert(r@ =~= code_of_piece(p)); }
            r
        },
        PieceType::ProKnight => {
            proof { reveal_strlit("NK"); }
            let r = "NK";
            proof { assert(r@ =~= code_of_piece(p)); }
            r
        },
        PieceType::ProSilver => {
            proof { reveal_strlit("NG"); }
            let r = "NG";
            proof { assert(r@ =~= code_of_piece(p)); }
            r
        },
        PieceType::Horse => {
            proof { reveal_strlit("UM"); }
            let r = "UM";
            proof { assert(r@ =~= code_of_piece(p)); }
            r
        },
        PieceType::Dragon => {
            proof { reveal_strlit("RY"); }
            let r = "RY";
            proof { assert(r@ =~= code_of_piece(p)); }
            r
        },
        PieceType::All => {
            proof { reveal_strlit("AL"); }
            let r = "AL";
            proof { assert(r@ =~= code_of_piece(p)); }
            r
        },
    }
}

/// The square two digit characters denote.
pub open spec fn square_of_digits(a: char, b: char) -> Square {
    Square { file: digit_val(a) as u8, rank: digit_val(b) as u8 }
}

pub fn parse_square(a: char, b: char) -> (r: Square)
    requires
        is_digit(a),
        is_digit(b),
    ensures
        r == square_of_digits(a, b),
        r.wf(),
{
    Square { file: (a as u32 - 48) as u8, rank: (b as u32 - 48) as u8 }
}

/// Whether the dialect still knows the retracted-move event.
pub open spec fn has_matta(v: Version) -> bool {
    v is V2 || v is V2_1
}

/// Whether the dialect knows the move-count-limit event.
pub open spec fn has_max_moves(v: Version) -> bool {
    v is V3
}

/// Whether elapsed-time tokens may carry a fractional-seconds suffix.
pub open spec fn has_millis(v: Version) -> bool {
    v is V3
}

/// Whether the dialect's grid section admits the reduced board shapes.
pub open spec fn has_reduced_boards(v: Version) -> bool {
    v is V2_2
}

/// Classify a terminal-event token: a fixed priority list of substring
/// checks, the signed illegal-action forms standing after the unsigned
/// illegal-move form, which no signed token contains, and the dialect-bound
/// events recognized only where the dialect has them.
pub open spec fn classify_special(v: Version, s: Seq<char>) -> Action {
    if contains_seq(s, "TORYO"@) {
        Action::Toryo
    } else if contains_seq(s, "CHUDAN"@) {
        Action::Chudan
    } else if contains_seq(s, "SENNICHITE"@) {
        Action::Sennichite
    } else if contains_seq(s, "TIME_UP"@) {
        Action::TimeUp
    } else if contains_seq(s, "ILLEGAL_MOVE"@) {
        Action::IllegalMove
    } else if contains_seq(s, "+ILLEGAL_ACTION"@) {
        Action::IllegalAction(Color::Black)
    } else if contains_seq(s, "-ILLEGAL_ACTION"@) {
        Action::IllegalAction(Color::White)
    } else if contains_seq(s, "JISHOGI"@) {
        Action::Jishogi
    } else if contains_seq(s, "KACHI"@) {
        Action::Kachi
    } else if contains_seq(s, "HIKIWAKE"@) {
        Action::Hikiwake
    } else if has_matta(v) && contains_seq(s, "MATTA"@) {
        Action::Matta
    } else if has_max_moves(v) && contains_seq(s, "MAX_MOVES"@) {
        Action::MaxMoves
    } else if contains_seq(s, "TSUMI"@) {
        Action::Tsumi
    } else if contains_seq(s, "FUZUMI"@) {
        Action::Fuzumi
    } else {
        Action::Error
    }
}

/// Close off the earlier tokens of the priority list: none of them occurs
/// in either signed illegal-action token or in the unsigned illegal-move
/// token.
proof fn lemma_not_contains(h: Seq<char>, n: Seq<char>)
    requires
        forall|i: int|
            #![trigger h.subrange(i, i + n.len() as int)]
            0 <= i && i + n.len() <= h.len() ==> h.subrange(i, i + n.len() as int) != n,
    ensures
        !contains_seq(h, n),
{
    if contains_seq(h, n) {
        let i = crate::text::lemma_contains_seq_witness(h, n);
    }
}

/// The signed illegal-action tokens classify to the illegal-action event of
/// the acting color, under every dialect, and never collide with the
/// unsigned illegal-move token, which keeps its own event.
pub proof fn lemma_illegal_action_tokens(v: Version)
    ensures
        classify_special(v, "%+ILLEGAL_ACTION"@) == Action::IllegalAction(Color::Black),
        classify_special(v, "%-ILLEGAL_ACTION"@) == Action::IllegalAction(Color::White),
        classify_special(v, "%ILLEGAL_MOVE"@) == Action::IllegalMove,
{
    reveal_strlit("%+ILLEGAL_ACTION");
    reveal_strlit("%-ILLEGAL_ACTION");
    reveal_strlit("%ILLEGAL_MOVE");
    reveal_strlit("TORYO");
    reveal_strlit("CHUDAN");
    reveal_strlit("SENNICHITE");
    reveal_strlit("TIME_UP");
    reveal_strlit("ILLEGAL_MOVE");
    reveal_strlit("+ILLEGAL_ACTION");
    reveal_strlit("-ILLEGAL_ACTION");
    let hp = "%+ILLEGAL_ACTION"@;
    let hm = "%-ILLEGAL_ACTION"@;
    let hu = "%ILLEGAL_MOVE"@;
    assert(!contains_seq(hp, "TORYO"@)) by {
        assert forall|i: int|
            #![trigger hp.subrange(i, i + 5)]
            0 <= i && i + 5 <= hp.len() implies hp.subrange(i, i + 5) != "TORYO"@ by {
            assert(hp.subrange(i, i + 5)[0] == hp[i + 0]);
            assert("TORYO"@[0] == 'T');
        }
        lemma_not_contains(hp, "TORYO"@);
    }
    assert(!contains_seq(hp, "CHUDAN"@)) by {
        assert forall|i: int|
            #![trigger hp.subrange(i, i + 6)]
            0 <= i && i + 6 <= hp.len() implies hp.subrange(i, i + 6) != "CHUDAN"@ by {
            assert(hp.subrange(i, i + 6)[0] == hp[i + 0]);
            assert("CHUDAN"@[0] == 'C');
        }
        lemma_not_contains(hp, "CHUDAN"@);
    }
    assert(!contains_seq(hp, "SENNICHITE"@)) by {
        assert forall|i: int|
            #![trigger hp.subrange(i, i + 10)]
            0 <= i && i + 10 <= hp.len() implies hp.subrange(i, i + 10) != "SENNICHITE"@ by {
            assert(hp.subrange(i, i + 10)[0] == hp[i + 0]);
            assert("SENNICHITE"@[0] == 'S');
        }
        lemma_not_contains(hp, "SENNICHITE"@);
    }
    assert(!contains_seq(hp, "TIME_UP"@)) by {
        assert forall|i: int|
            #![trigger hp.subrange(i, i + 7)]
            0 <= i && i + 7 <= hp.len() implies hp.subrange(i, i + 7) != "TIME_UP"@ by {
            assert(hp.subrange(i, i + 7)[0] == hp[i + 0]);
            assert("TIME_UP"@[0] == 'T');
        }
        lemma_not_contains(hp, "TIME_UP"@);
    }
    assert(!contains_seq(hp, "ILLEGAL_MOVE"@)) by {
        assert(forall|i: int|
            #![trigger hp.subrange(i, i + 12)]
            0 <= i && i + 12 <= hp.len() ==> hp.subrange(i, i + 12) != "ILLEGAL_MOVE"@) by {
            assert forall|i: int|
                #![trigger hp.subrange(i, i + 12)]
                0 <= i && i + 12 <= hp.len() implies hp.subrange(i, i + 12)
                != "ILLEGAL_MOVE"@ by {
                assert(hp.subrange(i, i + 12)[8] == hp[i + 8]);
                assert("ILLEGAL_MOVE"@[8] == 'M');
            }
        }
        lemma_not_contains(hp, "ILLEGAL_MOVE"@);
    }
    assert(contains_seq(hp, "+ILLEGAL_ACTION"@)) by {
        assert(hp.subrange(1, 16) =~= "+ILLEGAL_ACTION"@);
        crate::text::lemma_contains_seq_at(hp, "+ILLEGAL_ACTION"@, 1);
    }
    assert(!contains_seq(hm, "TORYO"@)) by {
        assert forall|i: int|
            #![trigger hm.subrange(i, i + 5)]
            0 <= i && i + 5 <= hm.len() implies hm.subrange(i, i + 5) != "TORYO"@ by {
            assert(hm.subrange(i, i + 5)[0] == hm[i + 0]);
            assert("TORYO"@[0] == 'T');
        }
        lemma_not_contains(hm, "TORYO"@);
    }
    assert(!contains_seq(hm, "CHUDAN"@)) by {
        assert forall|i: int|
            #![trigger hm.subrange(i, i + 6)]
            0 <= i && i + 6 <= hm.len() implies hm.subrange(i, i + 6) != "CHUDAN"@ by {
            assert(hm.subrange(i, i + 6)[0] == hm[i + 0]);
            assert("CHUDAN"@[0] == 'C');
        }
        lemma_not_contains(hm, "CHUDAN"@);
    }
    assert(!contains_seq(hm, "SENNICHITE"@)) by {
        assert forall|i: int|
            #![trigger hm.subrange(i, i + 10)]
            0 <= i && i + 10 <= hm.len() implies hm.subrange(i, i + 10) != "SENNICHITE"@ by {
            assert(hm.subrange(i, i + 10)[0] == hm[i + 0]);
            assert("SENNICHITE"@[0] == 'S');
        }
        lemma_not_contains(hm, "SENNICHITE"@);
    }
    assert(!contains_seq(hm, "TIME_UP"@)) by {
        assert forall|i: int|
            #![trigger hm.subrange(i, i + 7)]
            0 <= i && i + 7 <= hm.len() implies hm.subrange(i, i + 7) != "TIME_UP"@ by {
            assert(hm.subrange(i, i + 7)[0] == hm[i + 0]);
            assert("TIME_UP"@[0] == 'T');
        }
        lemma_not_contains(hm, "TIME_UP"@);
    }
    assert(!contains_seq(hm, "ILLEGAL_MOVE"@)) by {
        assert(forall|i: int|
            #![trigger hm.subrange(i, i + 12)]
            0 <= i && i + 12 <= hm.len() ==> hm.subrange(i, i + 12) != "ILLEGAL_MOVE"@) by {
            assert forall|i: int|
                #![trigger hm.subrange(i, i + 12)]
                0 <= i && i + 12 <= hm.len() implies hm.subrange(i, i + 12)
                != "ILLEGAL_MOVE"@ by {
                assert(hm.subrange(i, i + 12)[8] == hm[i + 8]);
                assert("ILLEGAL_MOVE"@[8] == 'M');
            }
        }
        lemma_not_contains(hm, "ILLEGAL_MOVE"@);
    }
    assert(!contains_seq(hm, "+ILLEGAL_ACTION"@)) by {
        assert forall|i: int|
            #![trigger hm.subrange(i, i + 15)]
            0 <= i && i + 15 <= hm.len() implies hm.subrange(i, i + 15) != "+ILLEGAL_ACTION"@ by {
            assert(hm.subrange(i, i + 15)[0] == hm[i + 0]);
            assert("+ILLEGAL_ACTION"@[0] == '+');
        }
        lemma_not_contains(hm, "+ILLEGAL_ACTION"@);
    }
    assert(contains_seq(hm, "-ILLEGAL_ACTION"@)) by {
        assert(hm.subrange(1, 16) =~= "-ILLEGAL_ACTION"@);
        crate::text::lemma_contains_seq_at(hm, "-ILLEGAL_ACTION"@, 1);
    }
    assert(!contains_seq(hu, "TORYO"@)) by {
        assert forall|i: int|
            #![trigger hu.subrange(i, i + 5)]
            0 <= i && i + 5 <= hu.len() implies hu.subrange(i, i + 5) != "TORYO"@ by {
            assert(hu.subrange(i, i + 5)[0] == hu[i + 0]);
            assert("TORYO"@[0] == 'T');
        }
        lemma_not_contains(hu, "TORYO"@);
    }
    assert(!contains_seq(hu, "CHUDAN"@)) by {
        assert forall|i: int|
            #![trigger hu.subrange(i, i + 6)]
            0 <= i && i + 6 <= hu.len() implies hu.subrange(i, i + 6) != "CHUDAN"@ by {
            assert(hu.subrange(i, i + 6)[0] == hu[i + 0]);
            assert("CHUDAN"@[0] == 'C');
        }
        lemma_not_contains(hu, "CHUDAN"@);
    }
    assert(!contains_seq(hu, "SENNICHITE"@)) by {
        assert forall|i: int|
            #![trigger hu.subrange(i, i + 10)]
            0 <= i && i + 10 <= hu.len() implies hu.subrange(i, i + 10) != "SENNICHITE"@ by {
            assert(hu.subrange(i, i + 10)[0] == hu[i + 0]);
            assert("SENNICHITE"@[0] == 'S');
        }
        lemma_not_contains(hu, "SENNICHITE"@);
    }
    assert(!contains_seq(hu, "TIME_UP"@)) by {
        assert forall|i: int|
            #![trigger hu.subrange(i, i + 7)]
            0 <= i && i + 7 <= hu.len() implies hu.subrange(i, i + 7) != "TIME_UP"@ by {
            assert(hu.subrange(i, i + 7)[0] == hu[i + 0]);
            assert("TIME_UP"@[0] == 'T');
        }
        lemma_not_contains(hu, "TIME_UP"@);
    }
    assert(contains_seq(hu, "ILLEGAL_MOVE"@)) by {
        assert(hu.subrange(1, 13) =~= "ILLEGAL_MOVE"@);
        crate::text::lemma_contains_seq_at(hu, "ILLEGAL_MOVE"@, 1);
    }
}

/// Classify the terminal-event token `v[start..end]` under dialect `ver`.
pub fn parse_special_move(ver: Version, v: &Vec<char>, start: usize, end: usize) -> (r: Action)
    requires
        start <= end <= v@.len(),
    ensures
        r == classify_special(ver, v@.subrange(start as int, end as int)),
{
    if range_contains_str(v, start, end, "TORYO") {
        Action::Toryo
    } else if range_contains_str(v, start, end, "CHUDAN") {
        Action::Chudan
    } else if range_contains_str(v, start, end, "SENNICHITE") {
        Action::Sennichite
    } else if range_contains_str(v, start, end, "TIME_UP") {
        Action::TimeUp
    } else if range_contains_str(v, start, end, "ILLEGAL_MOVE") {
        Action::IllegalMove
    } else if range_contains_str(v, start, end, "+ILLEGAL_ACTION") {
        Action::IllegalAction(Color::Black)
    } else if range_contains_str(v, start, end, "-ILLEGAL_ACTION") {
        Action::IllegalAction(Color::White)
    } else if range_contains_str(v, start, end, "JISHOGI") {
        Action::Jishogi
    } else if range_contains_str(v, start, end, "KACHI") {
        Action::Kachi
    } else if range_contains_str(v, start, end, "HIKIWAKE") {
        Action::Hikiwake
    } else if matches!(ver, Version::V2 | Version::V2_1) && range_contains_str(
        v,
        start,
        end,
        "MATTA",
    ) {
        Action::Matta
    } else if matches!(ver, Version::V3) && range_contains_str(v, start, end, "MAX_MOVES") {
        Action::MaxMoves
    } else if range_contains_str(v, start, end, "TSUMI") {
        Action::Tsumi
    } else if range_contains_str(v, start, end, "FUZUMI") {
        Action::Fuzumi
    } else {
        Action::Error
    }
}

} // verus!

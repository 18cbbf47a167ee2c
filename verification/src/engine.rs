//! The shared parsing pipeline: one pass over the input's lines, driven by
//! the dialect's capability set, folding each line into the record under
//! construction. The whole pass is specified by `spec_parse_dialect`, a fold
//! of `step` over the line model of the input.

use vstd::prelude::*;

use crate::csa::{version_token, version_token_str, Version};
use crate::lexical::{classify_special, color_of_sign, parse_color, parse_piece_type,
    parse_special_move, parse_square, piece_of_code, square_of_digits};
use crate::position::{all_rows_len, apply_rows, build_grid, grid_of_rows, parse_cells,
    parse_pairs, row_nums_ok, rows_view, spec_parse_cells, spec_parse_pairs, GridRow};
use crate::temporal::{parse_datetime_value, parse_elapsed, parse_timelimit_value,
    spec_parse_datetime_value, spec_parse_elapsed, spec_parse_timelimit_value};
use crate::text::{chars_of, chars_to_string, find_char, find_from, is_digit, lemma_find_from,
    push_char, range_eq_str, split_lines, split_lines_exec, strip_cr};
use crate::value::{Action, Cell, Color, GameRecord, GameRecordModel, MoveRecord, PieceType,
    PositionModel, Square};

verus! {

/// The fold state: the record so far, the one pending action of the move
/// stream, the grid rows collected for end-of-parse classification, and
/// whether the version line has been read.
#[verifier::ext_equal]
pub ghost struct StModel {
    pub rec: GameRecordModel,
    pub pending: Option<Action>,
    pub rows: Seq<(u8, Seq<Cell>)>,
    pub got_version: bool,
}

impl StModel {
    pub open spec fn init() -> StModel {
        StModel {
            rec: GameRecordModel::init(),
            pending: None,
            rows: Seq::empty(),
            got_version: false,
        }
    }
}

/// Flush a pending action as a move record without elapsed time.
pub open spec fn flush_pending(rec: GameRecordModel, pending: Option<Action>) -> GameRecordModel {
    match pending {
        Some(a) => GameRecordModel {
            moves: rec.moves.push(MoveRecord { action: a, time: None }),
            ..rec
        },
        None => rec,
    }
}

/// A player-name line: `N+` or `N-` and the name, an empty name reading as
/// absent.
pub open spec fn step_player(rec: GameRecordModel, line: Seq<char>) -> Option<GameRecordModel> {
    if line.len() < 2 {
        None
    } else if line[1] == '+' {
        Some(
            GameRecordModel {
                black_player: if line.len() > 2 {
                    Some(line.subrange(2, line.len() as int))
                } else {
                    None
                },
                ..rec
            },
        )
    } else if line[1] == '-' {
        Some(
            GameRecordModel {
                white_player: if line.len() > 2 {
                    Some(line.subrange(2, line.len() as int))
                } else {
                    None
                },
                ..rec
            },
        )
    } else {
        None
    }
}

/// An attribute line: `$KEY:value`. The temporal keys run their value
/// through the one normalization point of their value type; unknown keys
/// are ignored.
pub open spec fn step_attr(rec: GameRecordModel, line: Seq<char>) -> Option<GameRecordModel> {
    let colon = find_from(line, 0, ':');
    if colon >= line.len() {
        None
    } else {
        let key = line.subrange(1, colon);
        let val = line.subrange(colon + 1, line.len() as int);
        if key == "EVENT"@ {
            Some(GameRecordModel { event: Some(val), ..rec })
        } else if key == "SITE"@ {
            Some(GameRecordModel { site: Some(val), ..rec })
        } else if key == "OPENING"@ {
            Some(GameRecordModel { opening: Some(val), ..rec })
        } else if key == "START_TIME"@ {
            Some(GameRecordModel { start_time: spec_parse_datetime_value(val), ..rec })
        } else if key == "END_TIME"@ {
            Some(GameRecordModel { end_time: spec_parse_datetime_value(val), ..rec })
        } else if key == "TIME_LIMIT"@ {
            Some(GameRecordModel { time_limit: spec_parse_timelimit_value(val), ..rec })
        } else {
            Some(rec)
        }
    }
}

/// A position line: `PI` with handicap pairs, `P+`/`P-` with placements, or
/// a grid row `P1` through `P9`.
pub open spec fn step_position_line(
    rec: GameRecordModel,
    rows: Seq<(u8, Seq<Cell>)>,
    line: Seq<char>,
) -> Option<(GameRecordModel, Seq<(u8, Seq<Cell>)>)> {
    if line.len() < 2 {
        None
    } else if line[1] == 'I' {
        match spec_parse_pairs(line.subrange(2, line.len() as int)) {
            Some(ps) => Some(
                (
                    GameRecordModel {
                        start_pos: PositionModel { drop_pieces: ps, ..rec.start_pos },
                        ..rec
                    },
                    rows,
                ),
            ),
            None => None,
        }
    } else if line[1] == '+' || line[1] == '-' {
        match spec_parse_pairs(line.subrange(2, line.len() as int)) {
            Some(ps) => Some(
                (
                    GameRecordModel {
                        start_pos: PositionModel {
                            add_pieces: rec.start_pos.add_pieces + ps.map_values(
                                |p: (Square, PieceType)| (color_of_sign(line[1]), p.0, p.1),
                            ),
                            ..rec.start_pos
                        },
                        ..rec
                    },
                    rows,
                ),
            ),
            None => None,
        }
    } else if 49 <= line[1] as u32 <= 57 {
        match spec_parse_cells(line.subrange(2, line.len() as int)) {
            Some(cs) => Some((rec, rows.push(((line[1] as u32 - 48) as u8, cs)))),
            None => None,
        }
    } else {
        None
    }
}

/// A move line after its sign: four digits and a piece code.
pub open spec fn spec_parse_move_line(line: Seq<char>) -> Option<Action> {
    if line.len() == 7 && is_digit(line[1]) && is_digit(line[2]) && is_digit(line[3]) && is_digit(
        line[4],
    ) {
        match piece_of_code(line[5], line[6]) {
            Some(p) => Some(
                Action::Move(
                    color_of_sign(line[0]),
                    square_of_digits(line[1], line[2]),
                    square_of_digits(line[3], line[4]),
                    p,
                ),
            ),
            None => None,
        }
    } else {
        None
    }
}

/// Fold one raw line into the state: blank lines and comments pass; the
/// version line must come before anything substantive; then each line form
/// updates its own part of the record, and a malformed line is the one
/// grammar violation.
pub open spec fn step(v: Version, st: StModel, raw: Seq<char>) -> Option<StModel> {
    let line = strip_cr(raw);
    if line.len() == 0 {
        Some(st)
    } else if line[0] == '\'' {
        Some(st)
    } else if !st.got_version {
        if line == version_token(v) {
            Some(StModel { got_version: true, ..st })
        } else {
            None
        }
    } else if line[0] == '$' {
        match step_attr(st.rec, line) {
            Some(r) => Some(StModel { rec: r, ..st }),
            None => None,
        }
    } else if line[0] == 'N' {
        match step_player(st.rec, line) {
            Some(r) => Some(StModel { rec: r, ..st }),
            None => None,
        }
    } else if line[0] == 'P' {
        match step_position_line(st.rec, st.rows, line) {
            Some(rr) => Some(StModel { rec: rr.0, rows: rr.1, ..st }),
            None => None,
        }
    } else if line[0] == '+' || line[0] == '-' {
        if line.len() == 1 {
            Some(
                StModel {
                    rec: GameRecordModel {
                        start_pos: PositionModel {
                            side_to_move: color_of_sign(line[0]),
                            ..st.rec.start_pos
                        },
                        ..st.rec
                    },
                    ..st
                },
            )
        } else {
            match spec_parse_move_line(line) {
                Some(a) => Some(
                    StModel { rec: flush_pending(st.rec, st.pending), pending: Some(a), ..st },
                ),
                None => None,
            }
        }
    } else if line[0] == '%' {
        Some(
            StModel {
                rec: flush_pending(st.rec, st.pending),
                pending: Some(classify_special(v, line)),
                ..st
            },
        )
    } else if line[0] == 'T' {
        match spec_parse_elapsed(v, line.subrange(1, line.len() as int)) {
            Some(d) => match st.pending {
                Some(a) => Some(
                    StModel {
                        rec: GameRecordModel {
                            moves: st.rec.moves.push(MoveRecord { action: a, time: Some(d) }),
                            ..st.rec
                        },
                        pending: None,
                        ..st
                    },
                ),
                None => Some(st),
            },
            None => None,
        }
    } else {
        None
    }
}

/// Fold the lines from position `i` on.
pub open spec fn run_from(v: Version, lines: Seq<Seq<char>>, i: int, st: StModel) -> Option<
    StModel,
>
    decreases lines.len() - i,
{
    if i < 0 || i >= lines.len() {
        Some(st)
    } else {
        match step(v, st, lines[i]) {
            Some(st2) => run_from(v, lines, i + 1, st2),
            None => None,
        }
    }
}

/// Close the fold: a still-pending action becomes a final move record with
/// no elapsed time, and the collected grid rows settle which board shape
/// the record carries.
pub open spec fn finish(v: Version, st: StModel) -> Option<GameRecordModel> {
    let rec = flush_pending(st.rec, st.pending);
    match apply_rows(v, st.rows, rec.start_pos) {
        Some(pos) => Some(GameRecordModel { start_pos: pos, ..rec }),
        None => None,
    }
}

/// The meaning of an input under one dialect: the fold of `step` over its
/// lines, closed by `finish`; `None` is a grammar violation.
pub open spec fn spec_parse_dialect(v: Version, s: Seq<char>) -> Option<GameRecordModel> {
    match run_from(v, split_lines(s), 0, StModel::init()) {
        Some(st) => finish(v, st),
        None => None,
    }
}

/// Handle an attribute line; `false` reports the grammar violation.
fn handle_attr(rec: &mut GameRecord, raw: &Vec<char>, end: usize) -> (ok: bool)
    requires
        1 <= end <= raw@.len(),
        raw@.subrange(0, end as int)[0] == '$',
    ensures
        ({
            let line = raw@.subrange(0, end as int);
            match step_attr(old(rec)@, line) {
                Some(r2) => ok && final(rec)@ == r2,
                None => !ok,
            }
        }),
{
    let ghost line = raw@.subrange(0, end as int);
    let colon = find_char(raw, 0, end, ':');
    proof {
        lemma_find_from(line, 0, ':');
    }
    if colon == end {
        return false;
    }
    proof {
        assert(line.subrange(1, find_from(line, 0, ':')) =~= raw@.subrange(1, colon as int));
        assert(line.subrange(find_from(line, 0, ':') + 1, line.len() as int) =~= raw@.subrange(
            colon + 1,
            end as int,
        ));
    }
    if range_eq_str(raw, 1, colon, "EVENT") {
        rec.event = Some(chars_to_string(raw, colon + 1, end));
    } else if range_eq_str(raw, 1, colon, "SITE") {
        rec.site = Some(chars_to_string(raw, colon + 1, end));
    } else if range_eq_str(raw, 1, colon, "OPENING") {
        rec.opening = Some(chars_to_string(raw, colon + 1, end));
    } else if range_eq_str(raw, 1, colon, "START_TIME") {
        rec.start_time = parse_datetime_value(raw, colon + 1, end);
    } else if range_eq_str(raw, 1, colon, "END_TIME") {
        rec.end_time = parse_datetime_value(raw, colon + 1, end);
    } else if range_eq_str(raw, 1, colon, "TIME_LIMIT") {
        rec.time_limit = parse_timelimit_value(raw, colon + 1, end);
    }
    proof {
        assert(rec@ =~~= step_attr(old(rec)@, line).unwrap());
    }
    true
}

/// Handle a player-name line; `false` reports the grammar violation.
fn handle_player(rec: &mut GameRecord, raw: &Vec<char>, end: usize) -> (ok: bool)
    requires
        1 <= end <= raw@.len(),
    ensures
        ({
            let line = raw@.subrange(0, end as int);
            match step_player(old(rec)@, line) {
                Some(r2) => ok && final(rec)@ == r2,
                None => !ok,
            }
        }),
{
    let ghost line = raw@.subrange(0, end as int);
    if end < 2 {
        return false;
    }
    let c1 = raw[1];
    proof {
        assert(line[1] == c1);
        assert(line.subrange(2, line.len() as int) =~= raw@.subrange(2, end as int));
    }
    if c1 == '+' {
        if end > 2 {
            rec.black_player = Some(chars_to_string(raw, 2, end));
        } else {
            rec.black_player = None;
        }
    } else if c1 == '-' {
        if end > 2 {
            rec.white_player = Some(chars_to_string(raw, 2, end));
        } else {
            rec.white_player = None;
        }
    } else {
        return false;
    }
    proof {
        assert(rec@ =~~= step_player(old(rec)@, line).unwrap());
    }
    true
}

/// Handle a position line; `false` reports the grammar violation.
fn handle_position(
    rec: &mut GameRecord,
    rows: &mut Vec<GridRow>,
    raw: &Vec<char>,
    end: usize,
) -> (ok: bool)
    requires
        1 <= end <= raw@.len(),
    ensures
        ({
            let line = raw@.subrange(0, end as int);
            match step_position_line(old(rec)@, rows_view(old(rows)@), line) {
                Some(rr) => ok && final(rec)@ == rr.0 && rows_view(final(rows)@) == rr.1,
                None => !ok,
            }
        }),
{
    let ghost line = raw@.subrange(0, end as int);
    if end < 2 {
        return false;
    }
    let c1 = raw[1];
    proof {
        assert(line[1] == c1);
        assert(line.subrange(2, line.len() as int) =~= raw@.subrange(2, end as int));
    }
    if c1 == 'I' {
        match parse_pairs(raw, 2, end) {
            Some(ps) => {
                rec.start_pos.drop_pieces = ps;
                proof {
                    let rr = step_position_line(old(rec)@, rows_view(old(rows)@), line).unwrap();
                    assert(rec@ =~~= rr.0);
                }
                true
            },
            None => false,
        }
    } else if c1 == '+' || c1 == '-' {
        let col = parse_color(c1);
        match parse_pairs(raw, 2, end) {
            Some(ps) => {
                let ghost ps0 = ps@;
                let mut adds: Vec<(Color, Square, PieceType)> = Vec::new();
                let mut j: usize = 0;
                proof {
                    assert(adds@ =~= ps0.take(0).map_values(
                        |p: (Square, PieceType)| (col, p.0, p.1),
                    ));
                }
                while j < ps.len()
                    invariant
                        j <= ps@.len(),
                        ps@ == ps0,
                        adds@ == ps0.take(j as int).map_values(
                            |p: (Square, PieceType)| (col, p.0, p.1),
                        ),
                    decreases ps@.len() - j,
                {
                    let (sq, pt) = ps[j];
                    adds.push((col, sq, pt));
                    j = j + 1;
                    proof {
                        assert(ps0.take(j as int) =~= ps0.take(j - 1).push(ps0[j - 1]));
                        assert(ps0.take(j as int).map_values(
                            |p: (Square, PieceType)| (col, p.0, p.1),
                        ) =~= ps0.take(j - 1).map_values(
                            |p: (Square, PieceType)| (col, p.0, p.1),
                        ).push((col, sq, pt)));
                    }
                }
                proof {
                    assert(ps0.take(ps0.len() as int) =~= ps0);
                }
                rec.start_pos.add_pieces.append(&mut adds);
                proof {
                    let rr = step_position_line(old(rec)@, rows_view(old(rows)@), line).unwrap();
                    assert(rec@ =~~= rr.0);
                }
                true
            },
            None => false,
        }
    } else {
        let u1 = c1 as u32;
        if u1 < 49 || u1 > 57 {
            return false;
        }
        match parse_cells(raw, 2, end) {
            Some(cs) => {
                let ghost rows0 = rows_view(rows@);
                rows.push(((u1 - 48) as u8, cs));
                proof {
                    assert(rows_view(rows@) =~= rows0.push((((c1 as u32) - 48) as u8, cs@)));
                    let rr = step_position_line(old(rec)@, rows_view(old(rows)@), line).unwrap();
                    assert(rows_view(rows@) =~~= rr.1);
                }
                true
            },
            None => false,
        }
    }
}

/// Parse a move line, sign included.
fn parse_move_line(raw: &Vec<char>, end: usize) -> (r: Option<Action>)
    requires
        2 <= end <= raw@.len(),
    ensures
        r == spec_parse_move_line(raw@.subrange(0, end as int)),
{
    let ghost line = raw@.subrange(0, end as int);
    if end != 7 {
        return None;
    }
    let c0 = raw[0];
    let d1 = raw[1];
    let d2 = raw[2];
    let d3 = raw[3];
    let d4 = raw[4];
    let p1 = raw[5];
    let p2 = raw[6];
    proof {
        assert(line[0] == c0 && line[1] == d1 && line[2] == d2 && line[3] == d3 && line[4] == d4
            && line[5] == p1 && line[6] == p2);
    }
    let u1 = d1 as u32;
    let u2 = d2 as u32;
    let u3 = d3 as u32;
    let u4 = d4 as u32;
    if u1 < 48 || u1 > 57 || u2 < 48 || u2 > 57 || u3 < 48 || u3 > 57 || u4 < 48 || u4 > 57 {
        return None;
    }
    match parse_piece_type(p1, p2) {
        Some(p) => Some(
            Action::Move(parse_color(c0), parse_square(d1, d2), parse_square(d3, d4), p),
        ),
        None => None,
    }
}

/// Write the decimal digits of `x`.
fn push_u64(s: &mut String, x: u64) {
    let mut digits: Vec<char> = Vec::new();
    let mut n = x;
    loop
        invariant
            true,
        decreases n,
    {
        let d = (n % 10) as u8;
        digits.push((48 + d) as char);
        n = n / 10;
        if n == 0 {
            break;
        }
    }
    let mut i = digits.len();
    while i > 0
        invariant
            i <= digits.len(),
        decreases i,
    {
        i = i - 1;
        push_char(s, digits[i]);
    }
}

/// One grammar-violation diagnostic.
fn violation_message(line_no: usize) -> String {
    let mut msg = String::new();
    msg.append("the input does not fit the dialect's grammar (line ");
    push_u64(&mut msg, line_no as u64);
    msg.append(")");
    msg
}

/// Parse `input` as dialect `v` into the unified record.
#[verifier::rlimit(100)]
pub fn parse_dialect(v: Version, input: &str) -> (r: Result<GameRecord, String>)
    ensures
        match r {
            Ok(rec) => spec_parse_dialect(v, input@) == Some(rec@),
            Err(_) => spec_parse_dialect(v, input@) is None,
        },
{
    let chars = chars_of(input);
    let lines = split_lines_exec(&chars);
    let ghost ls = split_lines(input@);
    let n = lines.len();
    let mut rec = GameRecord::default();
    let mut pending: Option<Action> = None;
    let mut rows: Vec<GridRow> = Vec::new();
    let mut got_version = false;
    let mut i: usize = 0;
    proof {
        assert(rows_view(rows@) =~= Seq::<(u8, Seq<Cell>)>::empty());
        assert(StModel { rec: rec@, pending, rows: rows_view(rows@), got_version }
            =~~= StModel::init());
    }
    while i < n
        invariant
            ls == split_lines(input@),
            n == ls.len(),
            lines@.len() == n,
            forall|k: int| 0 <= k < n ==> (#[trigger] lines@[k])@ == ls[k],
            i <= n,
            run_from(v, ls, 0, StModel::init()) == run_from(
                v,
                ls,
                i as int,
                StModel { rec: rec@, pending, rows: rows_view(rows@), got_version },
            ),
        decreases n - i,
    {
        let ghost st0 = StModel { rec: rec@, pending, rows: rows_view(rows@), got_version };
        let raw = &lines[i];
        proof {
            assert(raw@ == ls[i as int]);
        }
        let mut end = raw.len();
        if end > 0 && raw[end - 1] == '\r' {
            end = end - 1;
        }
        let ghost line = strip_cr(raw@);
        proof {
            assert(line =~= raw@.subrange(0, end as int));
        }
        let ok: bool;
        if end == 0 {
            ok = true;
            proof {
                assert(step(v, st0, ls[i as int]) == Some(st0));
            }
        } else {
            let c0 = raw[0];
            proof {
                assert(line[0] == c0);
            }
            if c0 == '\'' {
                ok = true;
                proof {
                    assert(step(v, st0, ls[i as int]) == Some(st0));
                }
            } else if !got_version {
                if range_eq_str(raw, 0, end, version_token_str(v)) {
                    got_version = true;
                    ok = true;
                    proof {
                        let st1 = StModel {
                            rec: rec@,
                            pending,
                            rows: rows_view(rows@),
                            got_version,
                        };
                        assert(st1 =~~= StModel { got_version: true, ..st0 });
                        assert(step(v, st0, ls[i as int]) == Some(st1));
                    }
                } else {
                    ok = false;
                    proof {
                        assert(step(v, st0, ls[i as int]) is None);
                    }
                }
            } else if c0 == '$' {
                ok = handle_attr(&mut rec, raw, end);
                proof {
                    if ok {
                        let st1 = StModel {
                            rec: rec@,
                            pending,
                            rows: rows_view(rows@),
                            got_version,
                        };
                        assert(st1 =~~= StModel { rec: step_attr(st0.rec, line).unwrap(), ..st0 });
                        assert(step(v, st0, ls[i as int]) == Some(st1));
                    } else {
                        assert(step(v, st0, ls[i as int]) is None);
                    }
                }
            } else if c0 == 'N' {
                ok = handle_player(&mut rec, raw, end);
                proof {
                    if ok {
                        let st1 = StModel {
                            rec: rec@,
                            pending,
                            rows: rows_view(rows@),
                            got_version,
                        };
                        assert(st1 =~~= StModel {
                            rec: step_player(st0.rec, line).unwrap(),
                            ..st0
                        });
                        assert(step(v, st0, ls[i as int]) == Some(st1));
                    } else {
                        assert(step(v, st0, ls[i as int]) is None);
                    }
                }
            } else if c0 == 'P' {
                ok = handle_position(&mut rec, &mut rows, raw, end);
                proof {
                    if ok {
                        let st1 = StModel {
                            rec: rec@,
                            pending,
                            rows: rows_view(rows@),
                            got_version,
                        };
                        let rr = step_position_line(st0.rec, st0.rows, line).unwrap();
                        assert(st1 =~~= StModel { rec: rr.0, rows: rr.1, ..st0 });
                        assert(step(v, st0, ls[i as int]) == Some(st1));
                    } else {
                        assert(step(v, st0, ls[i as int]) is None);
                    }
                }
            } else if c0 == '+' || c0 == '-' {
                if end == 1 {
                    rec.start_pos.side_to_move = parse_color(c0);
                    ok = true;
                    proof {
                        let st1 = StModel {
                            rec: rec@,
                            pending,
                            rows: rows_view(rows@),
                            got_version,
                        };
                        assert(st1 =~~= StModel {
                            rec: GameRecordModel {
                                start_pos: PositionModel {
                                    side_to_move: color_of_sign(line[0]),
                                    ..st0.rec.start_pos
                                },
                                ..st0.rec
                            },
                            ..st0
                        });
                        assert(step(v, st0, ls[i as int]) == Some(st1));
                    }
                } else {
                    match parse_move_line(raw, end) {
                        Some(action) => {
                            if let Some(a) = pending {
                                rec.moves.push(MoveRecord { action: a, time: None });
                            }
                            pending = Some(action);
                            ok = true;
                            proof {
                                let st1 = StModel {
                                    rec: rec@,
                                    pending,
                                    rows: rows_view(rows@),
                                    got_version,
                                };
                                assert(st1.rec =~~= flush_pending(st0.rec, st0.pending));
                                assert(st1 =~~= StModel {
                                    rec: flush_pending(st0.rec, st0.pending),
                                    pending: Some(action),
                                    ..st0
                                });
                                assert(step(v, st0, ls[i as int]) == Some(st1));
                            }
                        },
                        None => {
                            ok = false;
                            proof {
                                assert(step(v, st0, ls[i as int]) is None);
                            }
                        },
                    }
                }
            } else if c0 == '%' {
                let action = parse_special_move(v, raw, 0, end);
                if let Some(a) = pending {
                    rec.moves.push(MoveRecord { action: a, time: None });
                }
                pending = Some(action);
                ok = true;
                proof {
                    let st1 = StModel { rec: rec@, pending, rows: rows_view(rows@), got_version };
                    assert(action == classify_special(v, line));
                    assert(st1.rec =~~= flush_pending(st0.rec, st0.pending));
                    assert(st1 =~~= StModel {
                        rec: flush_pending(st0.rec, st0.pending),
                        pending: Some(action),
                        ..st0
                    });
                    assert(step(v, st0, ls[i as int]) == Some(st1));
                }
            } else if c0 == 'T' {
                proof {
                    assert(line.subrange(1, line.len() as int) =~= raw@.subrange(1, end as int));
                }
                match parse_elapsed(v, raw, 1, end) {
                    Some(d) => {
                        if let Some(a) = pending {
                            rec.moves.push(MoveRecord { action: a, time: Some(d) });
                            pending = None;
                        }
                        ok = true;
                        proof {
                            let st1 = StModel {
                                rec: rec@,
                                pending,
                                rows: rows_view(rows@),
                                got_version,
                            };
                            if st0.pending is Some {
                                assert(st1 =~~= StModel {
                                    rec: GameRecordModel {
                                        moves: st0.rec.moves.push(
                                            MoveRecord {
                                                action: st0.pending.unwrap(),
                                                time: Some(d),
                                            },
                                        ),
                                        ..st0.rec
                                    },
                                    pending: None,
                                    ..st0
                                });
                            } else {
                                assert(st1 =~~= st0);
                            }
                            assert(step(v, st0, ls[i as int]) == Some(st1));
                        }
                    },
                    None => {
                        ok = false;
                        proof {
                            assert(step(v, st0, ls[i as int]) is None);
                        }
                    },
                }
            } else {
                ok = false;
                proof {
                    assert(step(v, st0, ls[i as int]) is None);
                }
            }
        }
        if !ok {
            proof {
                assert(run_from(v, ls, i as int, st0) is None);
            }
            return Err(violation_message(i + 1));
        }
        proof {
            let st1 = StModel { rec: rec@, pending, rows: rows_view(rows@), got_version };
            assert(run_from(v, ls, i as int, st0) == run_from(v, ls, i + 1, st1));
        }
        i = i + 1;
    }
    let ghost st_end = StModel { rec: rec@, pending, rows: rows_view(rows@), got_version };
    proof {
        assert(run_from(v, ls, n as int, st_end) == Some(st_end));
    }
    if let Some(a) = pending {
        rec.moves.push(MoveRecord { action: a, time: None });
    }
    let ghost frec = flush_pending(st_end.rec, st_end.pending);
    proof {
        assert(rec@ =~~= frec);
    }
    if rows.len() == 0 {
        proof {
            assert(apply_rows(v, st_end.rows, frec.start_pos) == Some(frec.start_pos));
            assert(rec@ =~~= GameRecordModel { start_pos: frec.start_pos, ..frec });
            assert(finish(v, st_end) == Some(rec@));
        }
        return Ok(rec);
    }
    if !check_row_nums(&rows) {
        proof {
            assert(finish(v, st_end) is None);
        }
        return Err(String::from_str("the grid rows do not fit any supported board shape"));
    }
    if rows.len() == 9 {
        rec.start_pos.bulk = Some(build_grid(&rows, 9));
        proof {
            assert(rec@.start_pos =~~= PositionModel {
                bulk: Some(grid_of_rows(st_end.rows, 9)),
                ..frec.start_pos
            });
            assert(rec@ =~~= GameRecordModel {
                start_pos: apply_rows(v, st_end.rows, frec.start_pos).unwrap(),
                ..frec
            });
            assert(finish(v, st_end) == Some(rec@));
        }
        return Ok(rec);
    }
    if rows.len() == 5 && matches!(v, Version::V2_2) {
        if check_rows_width3(&rows) {
            rec.start_pos.wildcat_bulk = Some(build_grid(&rows, 3));
            proof {
                assert(rec@.start_pos =~~= PositionModel {
                    wildcat_bulk: Some(grid_of_rows(st_end.rows, 3)),
                    ..frec.start_pos
                });
                assert(rec@ =~~= GameRecordModel {
                    start_pos: apply_rows(v, st_end.rows, frec.start_pos).unwrap(),
                    ..frec
                });
                assert(finish(v, st_end) == Some(rec@));
            }
            return Ok(rec);
        } else {
            rec.start_pos.minishogi_bulk = Some(build_grid(&rows, 5));
            proof {
                assert(rec@.start_pos =~~= PositionModel {
                    minishogi_bulk: Some(grid_of_rows(st_end.rows, 5)),
                    ..frec.start_pos
                });
                assert(rec@ =~~= GameRecordModel {
                    start_pos: apply_rows(v, st_end.rows, frec.start_pos).unwrap(),
                    ..frec
                });
                assert(finish(v, st_end) == Some(rec@));
            }
            return Ok(rec);
        }
    }
    proof {
        assert(apply_rows(v, st_end.rows, frec.start_pos) is None);
        assert(finish(v, st_end) is None);
    }
    Err(String::from_str("the grid rows do not fit any supported board shape"))
}

/// Whether the collected rows are numbered 1, 2, 3, ... in order.
fn check_row_nums(rows: &Vec<GridRow>) -> (r: bool)
    ensures
        r == row_nums_ok(rows_view(rows@)),
{
    let mut i: usize = 0;
    while i < rows.len()
        invariant
            i <= rows@.len(),
            forall|k: int| 0 <= k < i ==> (#[trigger] rows_view(rows@)[k]).0 == k + 1,
        decreases rows@.len() - i,
    {
        if i >= 255 || rows[i].0 as usize != i + 1 {
            proof {
                assert((rows_view(rows@)[i as int]).0 == rows@[i as int].0);
                if i >= 255 {
                    assert(rows@[i as int].0 <= 255);
                    assert((rows_view(rows@)[i as int]).0 != i + 1);
                }
            }
            return false;
        }
        proof {
            assert((rows_view(rows@)[i as int]).0 == rows@[i as int].0);
        }
        i = i + 1;
    }
    true
}

/// Whether every collected row has exactly three cells.
fn check_rows_width3(rows: &Vec<GridRow>) -> (r: bool)
    ensures
        r == all_rows_len(rows_view(rows@), 3),
{
    let mut i: usize = 0;
    while i < rows.len()
        invariant
            i <= rows@.len(),
            forall|k: int| 0 <= k < i ==> (#[trigger] rows_view(rows@)[k]).1.len() == 3,
        decreases rows@.len() - i,
    {
        if rows[i].1.len() != 3 {
            proof {
                assert((rows_view(rows@)[i as int]).1 == rows@[i as int].1@);
            }
            return false;
        }
        proof {
            assert((rows_view(rows@)[i as int]).1 == rows@[i as int].1@);
        }
        i = i + 1;
    }
    true
}

} // verus!

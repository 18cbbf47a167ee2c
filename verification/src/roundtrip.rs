//! The board round trip: a well-formed starting position, written out by
//! the serializer and parsed again, is read back exactly.

use vstd::prelude::*;

use crate::csa::{version_token, Version};
use crate::engine::{finish, run_from, spec_parse_dialect, step, StModel};
use crate::laws::lemma_run_push_empty;
use crate::lexical::{code_of_piece, color_of_sign, lemma_piece_code_roundtrip, piece_of_code};
use crate::position::{spec_parse_cells, spec_parse_pairs};
use crate::serial::{char_of_digit, csa_of_cell, csa_of_pair, csa_of_pairs, csa_of_row,
    grid_line, grid_lines, join_lines, lemma_digit_char_roundtrip, pi_lines, placement_lines,
    pos_lines, sign_of_color, spec_position_csa};
use crate::text::split_lines;
use crate::value::{Cell, Color, GameRecordModel, PieceType, PositionModel, Square};

verus! {

/// Text that stays inside one line: no line feed and no carriage return.
pub open spec fn line_clean(l: Seq<char>) -> bool {
    forall|j: int| 0 <= j < l.len() ==> (#[trigger] l[j]) != '\n' && l[j] != '\r'
}

proof fn lemma_clean_concat(a: Seq<char>, b: Seq<char>)
    requires
        line_clean(a),
        line_clean(b),
    ensures
        line_clean(a + b),
{
    assert forall|j: int| 0 <= j < (a + b).len() implies (#[trigger] (a + b)[j]) != '\n' && (a
        + b)[j] != '\r' by {
        if j < a.len() {
            assert((a + b)[j] == a[j]);
        } else {
            assert((a + b)[j] == b[j - a.len()]);
        }
    }
}

proof fn lemma_clean_code(p: PieceType)
    ensures
        line_clean(code_of_piece(p)),
        code_of_piece(p).len() == 2,
{
}

proof fn lemma_clean_cell(c: Cell)
    ensures
        line_clean(csa_of_cell(c)),
        csa_of_cell(c).len() == 3,
{
    match c {
        None => {
        },
        Some((col, p)) => {
            lemma_clean_code(p);
            lemma_clean_concat(seq![sign_of_color(col)], code_of_piece(p));
        },
    }
}

proof fn lemma_clean_row(cells: Seq<Cell>)
    ensures
        line_clean(csa_of_row(cells)),
        csa_of_row(cells).len() == 3 * cells.len(),
    decreases cells.len(),
{
    if cells.len() > 0 {
        lemma_clean_row(cells.drop_last());
        lemma_clean_cell(cells.last());
        lemma_clean_concat(csa_of_row(cells.drop_last()), csa_of_cell(cells.last()));
    }
}

proof fn lemma_clean_digit(d: int)
    ensures
        char_of_digit(d) != '\n' && char_of_digit(d) != '\r',
{
}

proof fn lemma_clean_pair(p: (Square, PieceType))
    ensures
        line_clean(csa_of_pair(p)),
        csa_of_pair(p).len() == 4,
{
    lemma_clean_code(p.1);
    lemma_clean_concat(
        seq![char_of_digit(p.0.file as int), char_of_digit(p.0.rank as int)],
        code_of_piece(p.1),
    );
}

proof fn lemma_clean_pairs(ps: Seq<(Square, PieceType)>)
    ensures
        line_clean(csa_of_pairs(ps)),
        csa_of_pairs(ps).len() == 4 * ps.len(),
    decreases ps.len(),
{
    if ps.len() > 0 {
        lemma_clean_pairs(ps.drop_last());
        lemma_clean_pair(ps.last());
        lemma_clean_concat(csa_of_pairs(ps.drop_last()), csa_of_pair(ps.last()));
    }
}

/// Every line the serializer writes stays inside its line.
proof fn lemma_pos_lines_clean(p: PositionModel)
    ensures
        forall|k: int| 0 <= k < pos_lines(p).len() ==> line_clean(#[trigger] pos_lines(p)[k]),
{
    let pls = pos_lines(p);
    assert forall|k: int| 0 <= k < pls.len() implies line_clean(#[trigger] pls[k]) by {
        let a = pi_lines(p);
        let b = grid_lines(p);
        let c = placement_lines(p.add_pieces);
        let d = seq![seq![sign_of_color(p.side_to_move)]];
        if k < a.len() {
            assert(pls[k] == a[k]);
            lemma_clean_pairs(p.drop_pieces);
            lemma_clean_concat(seq!['P', 'I'], csa_of_pairs(p.drop_pieces));
        } else if k < a.len() + b.len() {
            assert(pls[k] == b[k - a.len()]);
            let i = k - a.len();
            let g = if p.bulk is Some {
                p.bulk.unwrap()
            } else if p.minishogi_bulk is Some {
                p.minishogi_bulk.unwrap()
            } else {
                p.wildcat_bulk.unwrap()
            };
            assert(b[i] == grid_line(i, g[i]));
            lemma_clean_row(g[i]);
            lemma_clean_digit(i + 1);
            lemma_clean_concat(seq!['P', char_of_digit(i + 1)], csa_of_row(g[i]));
        } else if k < a.len() + b.len() + c.len() {
            let i = k - a.len() - b.len();
            assert(pls[k] == c[i]);
            lemma_clean_pair((p.add_pieces[i].1, p.add_pieces[i].2));
            lemma_clean_concat(
                seq!['P', sign_of_color(p.add_pieces[i].0)],
                csa_of_pair((p.add_pieces[i].1, p.add_pieces[i].2)),
            );
        } else {
            assert(pls[k] == d[k - a.len() - b.len() - c.len()]);
        }
    }
}

/// Splitting after a clean prefix line peels exactly that line.
proof fn lemma_split_line_prefix(a: Seq<char>, b: Seq<char>)
    requires
        forall|j: int| 0 <= j < a.len() ==> (#[trigger] a[j]) != '\n',
    ensures
        split_lines(a + seq!['\n'] + b) == seq![a] + split_lines(b),
    decreases a.len(),
{
    let s = a + seq!['\n'] + b;
    if a.len() == 0 {
        assert(s[0] == '\n');
        assert(s.drop_first() =~= b);
        assert(split_lines(s) =~~= seq![a] + split_lines(b));
    } else {
        assert(s[0] == a[0]);
        assert(s.drop_first() =~= a.drop_first() + seq!['\n'] + b);
        lemma_split_line_prefix(a.drop_first(), b);
        let r = split_lines(s.drop_first());
        assert(r == seq![a.drop_first()] + split_lines(b));
        assert(r[0] == a.drop_first());
        assert(seq![s[0]] + r[0] =~= a);
        assert(r.subrange(1, r.len() as int) =~= split_lines(b));
        assert(split_lines(s) =~~= seq![a] + split_lines(b));
    }
}

/// Splitting a joined text gives the lines back, plus the final empty
/// segment after the last line feed.
proof fn lemma_split_join(ls: Seq<Seq<char>>)
    requires
        forall|k: int| 0 <= k < ls.len() ==> line_clean(#[trigger] ls[k]),
    ensures
        split_lines(join_lines(ls)) == ls.push(Seq::<char>::empty()),
    decreases ls.len(),
{
    if ls.len() == 0 {
        assert(join_lines(ls) =~= Seq::<char>::empty());
        assert(split_lines(join_lines(ls)) =~~= ls.push(Seq::<char>::empty()));
    } else {
        lemma_split_join(ls.drop_first());
        lemma_split_line_prefix(ls[0], join_lines(ls.drop_first()));
        assert(join_lines(ls) == ls[0] + seq!['\n'] + join_lines(ls.drop_first()));
        assert(split_lines(join_lines(ls)) == seq![ls[0]] + ls.drop_first().push(
            Seq::<char>::empty(),
        ));
        assert(seq![ls[0]] + ls.drop_first().push(Seq::<char>::empty()) =~~= ls.push(
            Seq::<char>::empty(),
        ));
    }
}

/// A serialized row reads back cell for cell.
proof fn lemma_row_front(cells: Seq<Cell>)
    requires
        cells.len() > 0,
    ensures
        csa_of_row(cells) == csa_of_cell(cells[0]) + csa_of_row(cells.drop_first()),
    decreases cells.len(),
{
    if cells.len() == 1 {
        assert(cells.drop_last() =~= Seq::<Cell>::empty());
        assert(cells.drop_first() =~= Seq::<Cell>::empty());
        assert(csa_of_row(cells) =~= csa_of_cell(cells[0]) + csa_of_row(cells.drop_first()));
    } else {
        lemma_row_front(cells.drop_last());
        assert(cells.drop_last()[0] == cells[0]);
        assert(cells.drop_last().drop_first() =~= cells.drop_first().drop_last());
        assert(cells.drop_first().last() == cells.last());
        assert(csa_of_row(cells) == csa_of_row(cells.drop_last()) + csa_of_cell(cells.last()));
        assert(csa_of_row(cells) =~= csa_of_cell(cells[0]) + (csa_of_row(
            cells.drop_first().drop_last(),
        ) + csa_of_cell(cells.drop_first().last())));
    }
}

proof fn lemma_parse_row_roundtrip(cells: Seq<Cell>)
    ensures
        spec_parse_cells(csa_of_row(cells)) == Some(cells),
    decreases cells.len(),
{
    if cells.len() == 0 {
        assert(csa_of_row(cells).len() == 0);
        assert(spec_parse_cells(csa_of_row(cells)) =~~= Some(cells));
    } else {
        lemma_row_front(cells);
        let s = csa_of_row(cells);
        let c0 = cells[0];
        let rest = csa_of_row(cells.drop_first());
        lemma_clean_cell(c0);
        lemma_clean_row(cells.drop_first());
        assert(s == csa_of_cell(c0) + rest);
        assert(s.len() == 3 + rest.len());
        assert(s[0] == csa_of_cell(c0)[0] && s[1] == csa_of_cell(c0)[1] && s[2] == csa_of_cell(
            c0,
        )[2]);
        assert(s.skip(3) =~= rest);
        lemma_parse_row_roundtrip(cells.drop_first());
        match c0 {
            None => {
                assert(s[0] == ' ' && s[1] == '*' && s[2] == ' ');
            },
            Some((col, p)) => {
                lemma_piece_code_roundtrip(p);
                assert(s[0] == sign_of_color(col));
                assert(s[1] == code_of_piece(p)[0] && s[2] == code_of_piece(p)[1]);
                assert(piece_of_code(s[1], s[2]) == Some(p));
                assert(color_of_sign(sign_of_color(col)) == col);
            },
        }
        assert(seq![c0] + cells.drop_first() =~= cells);
    }
}

proof fn lemma_pairs_front(ps: Seq<(Square, PieceType)>)
    requires
        ps.len() > 0,
    ensures
        csa_of_pairs(ps) == csa_of_pair(ps[0]) + csa_of_pairs(ps.drop_first()),
    decreases ps.len(),
{
    if ps.len() == 1 {
        assert(ps.drop_last() =~= Seq::<(Square, PieceType)>::empty());
        assert(ps.drop_first() =~= Seq::<(Square, PieceType)>::empty());
        assert(csa_of_pairs(ps) =~= csa_of_pair(ps[0]) + csa_of_pairs(ps.drop_first()));
    } else {
        lemma_pairs_front(ps.drop_last());
        assert(ps.drop_last()[0] == ps[0]);
        assert(ps.drop_last().drop_first() =~= ps.drop_first().drop_last());
        assert(ps.drop_first().last() == ps.last());
        assert(csa_of_pairs(ps) =~= csa_of_pair(ps[0]) + (csa_of_pairs(
            ps.drop_first().drop_last(),
        ) + csa_of_pair(ps.drop_first().last())));
    }
}

proof fn lemma_parse_pairs_roundtrip(ps: Seq<(Square, PieceType)>)
    requires
        forall|i: int| 0 <= i < ps.len() ==> (#[trigger] ps[i]).0.wf(),
    ensures
        spec_parse_pairs(csa_of_pairs(ps)) == Some(ps),
    decreases ps.len(),
{
    if ps.len() == 0 {
        assert(csa_of_pairs(ps).len() == 0);
        assert(spec_parse_pairs(csa_of_pairs(ps)) =~~= Some(ps));
    } else {
        lemma_pairs_front(ps);
        let s = csa_of_pairs(ps);
        let p0 = ps[0];
        let rest = csa_of_pairs(ps.drop_first());
        lemma_clean_pair(p0);
        lemma_clean_pairs(ps.drop_first());
        assert(s == csa_of_pair(p0) + rest);
        assert(s.len() == 4 + rest.len());
        assert(s[0] == csa_of_pair(p0)[0] && s[1] == csa_of_pair(p0)[1] && s[2] == csa_of_pair(
            p0,
        )[2] && s[3] == csa_of_pair(p0)[3]);
        assert(s.skip(4) =~= rest);
        assert(forall|i: int|
            0 <= i < ps.drop_first().len() ==> (#[trigger] ps.drop_first()[i]).0.wf());
        lemma_parse_pairs_roundtrip(ps.drop_first());
        lemma_digit_char_roundtrip(p0.0.file as int);
        lemma_digit_char_roundtrip(p0.0.rank as int);
        lemma_piece_code_roundtrip(p0.1);
        assert(s[0] == char_of_digit(p0.0.file as int) && s[1] == char_of_digit(
            p0.0.rank as int,
        ));
        assert(s[2] == code_of_piece(p0.1)[0] && s[3] == code_of_piece(p0.1)[1]);
        assert(crate::lexical::square_of_digits(s[0], s[1]) == p0.0);
        assert(seq![p0] + ps.drop_first() =~= ps);
    }
}

/// Advance the fold over one serialized grid, row by row.
#[verifier::rlimit(100)]
#[verifier::spinoff_prover]
proof fn lemma_run_grid(
    v: Version,
    lines: Seq<Seq<char>>,
    i: int,
    st: StModel,
    g: Seq<Seq<Cell>>,
    k: int,
)
    requires
        st.got_version,
        0 <= k <= g.len(),
        g.len() <= 9,
        0 <= i,
        i + (g.len() - k) <= lines.len(),
        forall|t: int| k <= t < g.len() ==> lines[i + (t - k)] == grid_line(t, #[trigger] g[t]),
    ensures
        run_from(v, lines, i, st) == run_from(
            v,
            lines,
            i + (g.len() - k),
            StModel {
                rows: st.rows + Seq::new(
                    (g.len() - k) as nat,
                    |t: int| (((k + t + 1)) as u8, g[k + t]),
                ),
                ..st
            },
        ),
    decreases g.len() - k,
{
    if k == g.len() {
        assert(st.rows + Seq::new(0, |t: int| (((k + t + 1)) as u8, g[k + t])) =~= st.rows);
        assert(StModel {
            rows: st.rows + Seq::new(0, |t: int| (((k + t + 1)) as u8, g[k + t])),
            ..st
        } =~~= st);
    } else {
        let line = grid_line(k, g[k]);
        assert(lines[i] == line);
        lemma_clean_row(g[k]);
        lemma_clean_digit(k + 1);
        assert(line.len() >= 2);
        assert(line[0] == 'P');
        assert(line[1] == char_of_digit(k + 1));
        assert(crate::text::strip_cr(line) =~= line) by {
            if line.len() > 0 && line.last() == '\r' {
                if line.len() == 2 {
                    assert(line.last() == char_of_digit(k + 1));
                } else {
                    assert(line.last() == csa_of_row(g[k])[line.len() - 3]);
                }
            }
        }
        assert(49 <= line[1] as u32 <= 57);
        assert(line.subrange(2, line.len() as int) =~= csa_of_row(g[k]));
        lemma_parse_row_roundtrip(g[k]);
        assert((line[1] as u32 - 48) as u8 == (k + 1) as u8);
        let st2 = StModel { rows: st.rows.push(((k + 1) as u8, g[k])), ..st };
        assert(step(v, st, line) == Some(st2)) by {
            assert(crate::engine::step_position_line(st.rec, st.rows, line) == Some(
                (st.rec, st.rows.push((((k + 1)) as u8, g[k]))),
            ));
        }
        assert(run_from(v, lines, i, st) == run_from(v, lines, i + 1, st2));
        lemma_run_grid(v, lines, i + 1, st2, g, k + 1);
        assert(st2.rows + Seq::new(
            (g.len() - k - 1) as nat,
            |t: int| (((k + 1 + t + 1)) as u8, g[k + 1 + t]),
        ) =~= st.rows + Seq::new((g.len() - k) as nat, |t: int| (((k + t + 1)) as u8, g[k + t])));
        assert(StModel {
            rows: st2.rows + Seq::new(
                (g.len() - k - 1) as nat,
                |t: int| (((k + 1 + t + 1)) as u8, g[k + 1 + t]),
            ),
            ..st2
        } =~~= StModel {
            rows: st.rows + Seq::new(
                (g.len() - k) as nat,
                |t: int| (((k + t + 1)) as u8, g[k + t]),
            ),
            ..st
        });
    }
}

/// Advance the fold over the placement lines, one placed piece each.
proof fn lemma_run_placements(
    v: Version,
    lines: Seq<Seq<char>>,
    i: int,
    st: StModel,
    add: Seq<(Color, Square, PieceType)>,
    k: int,
)
    requires
        st.got_version,
        0 <= k <= add.len(),
        0 <= i,
        i + (add.len() - k) <= lines.len(),
        forall|t: int|
            k <= t < add.len() ==> lines[i + (t - k)] == seq![
                'P',
                sign_of_color((#[trigger] add[t]).0),
            ] + csa_of_pair((add[t].1, add[t].2)),
        forall|t: int| 0 <= t < add.len() ==> (#[trigger] add[t]).1.wf(),
    ensures
        run_from(v, lines, i, st) == run_from(
            v,
            lines,
            i + (add.len() - k),
            StModel {
                rec: GameRecordModel {
                    start_pos: PositionModel {
                        add_pieces: st.rec.start_pos.add_pieces + add.skip(k),
                        ..st.rec.start_pos
                    },
                    ..st.rec
                },
                ..st
            },
        ),
    decreases add.len() - k,
{
    if k == add.len() {
        assert(st.rec.start_pos.add_pieces + add.skip(k) =~= st.rec.start_pos.add_pieces);
        assert(StModel {
            rec: GameRecordModel {
                start_pos: PositionModel {
                    add_pieces: st.rec.start_pos.add_pieces + add.skip(k),
                    ..st.rec.start_pos
                },
                ..st.rec
            },
            ..st
        } =~~= st);
    } else {
        let (col, sq, pt) = (add[k].0, add[k].1, add[k].2);
        let line = seq!['P', sign_of_color(col)] + csa_of_pair((sq, pt));
        assert(lines[i] == line);
        lemma_clean_pair((sq, pt));
        assert(line.len() == 6);
        assert(line[0] == 'P');
        assert(line[1] == sign_of_color(col));
        assert(crate::text::strip_cr(line) =~= line) by {
            assert(line.last() == csa_of_pair((sq, pt))[3]);
        }
        assert(line.subrange(2, line.len() as int) =~= csa_of_pairs(seq![(sq, pt)])) by {
            assert((seq![(sq, pt)]).drop_last() =~= Seq::<(Square, PieceType)>::empty());
            assert((seq![(sq, pt)]).last() == (sq, pt));
            assert(csa_of_pairs(Seq::<(Square, PieceType)>::empty()) =~= Seq::<char>::empty());
            assert(csa_of_pairs(seq![(sq, pt)]) == csa_of_pairs(
                (seq![(sq, pt)]).drop_last(),
            ) + csa_of_pair((seq![(sq, pt)]).last()));
            assert(csa_of_pairs(seq![(sq, pt)]) =~= csa_of_pair((sq, pt)));
            assert(line.subrange(2, line.len() as int) =~= csa_of_pair((sq, pt)));
        }
        assert(forall|t: int|
            0 <= t < seq![(sq, pt)].len() ==> (#[trigger] (seq![(sq, pt)])[t]).0.wf()) by {
            assert((seq![(sq, pt)])[0].0 == sq);
        }
        lemma_parse_pairs_roundtrip(seq![(sq, pt)]);
        let mapped = seq![(sq, pt)].map_values(
            |p: (Square, PieceType)| (color_of_sign(line[1]), p.0, p.1),
        );
        assert(mapped =~= seq![(col, sq, pt)]) by {
            assert(mapped[0] == (color_of_sign(sign_of_color(col)), sq, pt));
        }
        let st2 = StModel {
            rec: GameRecordModel {
                start_pos: PositionModel {
                    add_pieces: st.rec.start_pos.add_pieces + seq![(col, sq, pt)],
                    ..st.rec.start_pos
                },
                ..st.rec
            },
            ..st
        };
        assert(step(v, st, line) == Some(st2)) by {
            assert(crate::engine::step_position_line(st.rec, st.rows, line) is Some);
            let rr = crate::engine::step_position_line(st.rec, st.rows, line).unwrap();
            assert(rr.0.start_pos.add_pieces == st.rec.start_pos.add_pieces + mapped);
            assert(rr.0 =~~= st2.rec);
            assert(rr.1 == st.rows);
            assert(StModel { rec: rr.0, rows: rr.1, ..st } =~~= st2);
        }
        assert(run_from(v, lines, i, st) == run_from(v, lines, i + 1, st2));
        lemma_run_placements(v, lines, i + 1, st2, add, k + 1);
        assert(st2.rec.start_pos.add_pieces + add.skip(k + 1) =~= st.rec.start_pos.add_pieces
            + add.skip(k)) by {
            assert(add.skip(k)[0] == add[k]);
        }
        assert(StModel {
            rec: GameRecordModel {
                start_pos: PositionModel {
                    add_pieces: st2.rec.start_pos.add_pieces + add.skip(k + 1),
                    ..st2.rec.start_pos
                },
                ..st2.rec
            },
            ..st2
        } =~~= StModel {
            rec: GameRecordModel {
                start_pos: PositionModel {
                    add_pieces: st.rec.start_pos.add_pieces + add.skip(k),
                    ..st.rec.start_pos
                },
                ..st.rec
            },
            ..st
        });
    }
}

/// Writing a well-formed starting position and parsing the text again
/// reproduces the position exactly; every other field of the record stays
/// at its initial value. In particular a reduced board — 5 by 5 or 5 by 3 —
/// round-trips to the identical grid.
#[verifier::rlimit(100)]
#[verifier::spinoff_prover]
pub proof fn lemma_position_roundtrip(p: PositionModel)
    requires
        p.wf(),
    ensures
        spec_parse_dialect(Version::V2_2, spec_position_csa(p)) == Some(
            GameRecordModel { start_pos: p, ..GameRecordModel::init() },
        ),
{
    let v = Version::V2_2;
    let tok = "V2.2"@;
    let pls = pos_lines(p);
    let all = seq![tok] + pls;
    reveal_strlit("V2.2");
    reveal_strlit("V2.2\n");

    // the serialized text splits back into the serialized lines
    assert(spec_position_csa(p) =~= join_lines(all)) by {
        assert(join_lines(all) == all[0] + seq!['\n'] + join_lines(all.drop_first()));
        assert(all.drop_first() =~= pls);
        assert("V2.2\n"@ =~= tok + seq!['\n']);
    }
    lemma_pos_lines_clean(p);
    assert(forall|k: int| 0 <= k < all.len() ==> line_clean(#[trigger] all[k])) by {
        assert(line_clean(tok));
        assert(forall|k: int| 1 <= k < all.len() ==> all[k] == pos_lines(p)[k - 1]);
    }
    lemma_split_join(all);
    assert(split_lines(spec_position_csa(p)) == all.push(Seq::<char>::empty()));

    // the trailing empty segment is inert
    lemma_run_push_empty(v, all, 0, StModel::init());

    // the version line
    let st0 = StModel::init();
    assert(crate::text::strip_cr(tok) =~= tok);
    assert(tok == version_token(v));
    let st1 = StModel { got_version: true, ..st0 };
    assert(step(v, st0, tok) == Some(st1)) by {
        assert(tok[0] == 'V');
    }
    assert(all[0] == tok);
    assert(run_from(v, all, 0, st0) == run_from(v, all, 1, st1));

    let a = pi_lines(p);
    let b = grid_lines(p);
    let c = placement_lines(p.add_pieces);
    let d = seq![seq![sign_of_color(p.side_to_move)]];
    assert(forall|k: int| 0 <= k < pls.len() ==> all[k + 1] == #[trigger] pls[k]);

    // the handicap line
    let st2: StModel;
    if p.drop_pieces.len() == 0 {
        st2 = st1;
        assert(a.len() == 0);
        assert(st2.rec.start_pos.drop_pieces == p.drop_pieces);
    } else {
        let line = seq!['P', 'I'] + csa_of_pairs(p.drop_pieces);
        assert(a =~= seq![line]);
        assert(pls[0] == line);
        assert(all[1] == line);
        lemma_clean_pairs(p.drop_pieces);
        assert(crate::text::strip_cr(line) =~= line) by {
            assert(line.len() >= 2);
            if line.len() == 2 {
                assert(line.last() == 'I');
            } else {
                assert(line.last() == csa_of_pairs(p.drop_pieces)[line.len() - 3]);
            }
        }
        assert(line[0] == 'P' && line[1] == 'I');
        assert(line.subrange(2, line.len() as int) =~= csa_of_pairs(p.drop_pieces));
        lemma_parse_pairs_roundtrip(p.drop_pieces);
        st2 = StModel {
            rec: GameRecordModel {
                start_pos: PositionModel { drop_pieces: p.drop_pieces, ..st1.rec.start_pos },
                ..st1.rec
            },
            ..st1
        };
        assert(step(v, st1, line) == Some(st2)) by {
            assert(crate::engine::step_position_line(st1.rec, st1.rows, line) == Some(
                (st2.rec, st1.rows),
            ));
        }
        assert(run_from(v, all, 1, st1) == run_from(v, all, 2, st2));
    }
    let i1 = 1 + a.len() as int;
    assert(run_from(v, all, 1, st1) == run_from(v, all, i1, st2));

    // the grid lines
    let gopt: Option<Seq<Seq<Cell>>> = if p.bulk is Some {
        Some(p.bulk.unwrap())
    } else if p.minishogi_bulk is Some {
        Some(p.minishogi_bulk.unwrap())
    } else if p.wildcat_bulk is Some {
        Some(p.wildcat_bulk.unwrap())
    } else {
        None
    };
    let st3: StModel;
    match gopt {
        Some(g) => {
            assert(b =~= Seq::new(g.len(), |i: int| grid_line(i, g[i])));
            assert(g.len() <= 9);
            assert(forall|t: int| 0 <= t < g.len() ==> all[i1 + t] == grid_line(
                t,
                #[trigger] g[t],
            )) by {
                assert(forall|t: int| 0 <= t < g.len() ==> pls[a.len() + t] == b[t]);
            }
            st3 = StModel {
                rows: st2.rows + Seq::new(g.len(), |t: int| (((t + 1)) as u8, g[t])),
                ..st2
            };
            lemma_run_grid(v, all, i1, st2, g, 0);
            assert(StModel {
                rows: st2.rows + Seq::new(
                    (g.len() - 0) as nat,
                    |t: int| (((0 + t + 1)) as u8, g[0 + t]),
                ),
                ..st2
            } =~~= st3);
        },
        None => {
            st3 = st2;
            assert(b.len() == 0);
        },
    }
    let i2 = i1 + b.len() as int;
    assert(run_from(v, all, i1, st2) == run_from(v, all, i2, st3));

    // the placement lines
    assert(forall|t: int| 0 <= t < p.add_pieces.len() ==> all[i2 + t] == seq![
        'P',
        sign_of_color((#[trigger] p.add_pieces[t]).0),
    ] + csa_of_pair((p.add_pieces[t].1, p.add_pieces[t].2))) by {
        assert(forall|t: int| 0 <= t < c.len() ==> pls[a.len() + b.len() + t] == #[trigger] c[t]);
    }
    let st4 = StModel {
        rec: GameRecordModel {
            start_pos: PositionModel {
                add_pieces: st3.rec.start_pos.add_pieces + p.add_pieces.skip(0),
                ..st3.rec.start_pos
            },
            ..st3.rec
        },
        ..st3
    };
    lemma_run_placements(v, all, i2, st3, p.add_pieces, 0);
    let i3 = i2 + c.len() as int;
    assert(run_from(v, all, i2, st3) == run_from(v, all, i3, st4));
    assert(st4.rec.start_pos.add_pieces =~= p.add_pieces);

    // the side-to-move line
    let sline = seq![sign_of_color(p.side_to_move)];
    assert(pls[a.len() + b.len() + c.len() as int] == d[0]);
    assert(all[i3] == sline);
    assert(crate::text::strip_cr(sline) =~= sline);
    let st5 = StModel {
        rec: GameRecordModel {
            start_pos: PositionModel {
                side_to_move: p.side_to_move,
                ..st4.rec.start_pos
            },
            ..st4.rec
        },
        ..st4
    };
    assert(step(v, st4, sline) == Some(st5)) by {
        assert(sline.len() == 1);
        assert(sline[0] == '+' || sline[0] == '-');
        assert(color_of_sign(sign_of_color(p.side_to_move)) == p.side_to_move);
        assert(StModel {
            rec: GameRecordModel {
                start_pos: PositionModel {
                    side_to_move: color_of_sign(sline[0]),
                    ..st4.rec.start_pos
                },
                ..st4.rec
            },
            ..st4
        } =~~= st5);
    }
    assert(run_from(v, all, i3, st4) == run_from(v, all, i3 + 1, st5));
    assert(i3 + 1 == all.len());
    assert(run_from(v, all, i3 + 1, st5) == Some(st5));
    assert(run_from(v, all, 0, StModel::init()) == Some(st5));

    // the fold is closed: no pending action, and the collected rows give
    // back exactly the one grid the position carried
    assert(st5.pending is None);
    let frec = crate::engine::flush_pending(st5.rec, st5.pending);
    assert(frec == st5.rec);
    let rows = st5.rows;
    let target = GameRecordModel { start_pos: p, ..GameRecordModel::init() };
    match gopt {
        Some(g) => {
            assert(rows =~= Seq::new(g.len(), |t: int| (((t + 1)) as u8, g[t])));
            assert(crate::position::row_nums_ok(rows));
            if p.bulk is Some {
                assert(rows.len() == 9);
                assert(crate::position::grid_of_rows(rows, 9) =~~= g) by {
                    assert(forall|t: int| 0 <= t < 9 ==> (#[trigger] rows[t]).1 == g[t]);
                    assert(forall|t: int|
                        0 <= t < 9 ==> crate::position::pad_row((#[trigger] rows[t]).1, 9)
                            =~= g[t]);
                }
                assert(crate::position::apply_rows(v, rows, frec.start_pos) == Some(
                    PositionModel { bulk: Some(g), ..frec.start_pos },
                ));
                assert(finish(v, st5) == Some(target)) by {
                    assert(PositionModel { bulk: Some(g), ..frec.start_pos } =~~= p);
                    assert(GameRecordModel {
                        start_pos: PositionModel { bulk: Some(g), ..frec.start_pos },
                        ..frec
                    } =~~= target);
                }
            } else if p.minishogi_bulk is Some {
                assert(rows.len() == 5);
                assert(!crate::position::all_rows_len(rows, 3)) by {
                    assert(rows[0].1.len() == 5);
                }
                assert(crate::position::grid_of_rows(rows, 5) =~~= g) by {
                    assert(forall|t: int| 0 <= t < 5 ==> (#[trigger] rows[t]).1 == g[t]);
                    assert(forall|t: int|
                        0 <= t < 5 ==> crate::position::pad_row((#[trigger] rows[t]).1, 5)
                            =~= g[t]);
                }
                assert(crate::position::apply_rows(v, rows, frec.start_pos) == Some(
                    PositionModel { minishogi_bulk: Some(g), ..frec.start_pos },
                ));
                assert(finish(v, st5) == Some(target)) by {
                    assert(PositionModel { minishogi_bulk: Some(g), ..frec.start_pos } =~~= p);
                    assert(GameRecordModel {
                        start_pos: PositionModel { minishogi_bulk: Some(g), ..frec.start_pos },
                        ..frec
                    } =~~= target);
                }
            } else {
                assert(rows.len() == 5);
                assert(crate::position::all_rows_len(rows, 3)) by {
                    assert(forall|t: int| 0 <= t < 5 ==> (#[trigger] rows[t]).1 == g[t]);
                }
                assert(crate::position::grid_of_rows(rows, 3) =~~= g) by {
                    assert(forall|t: int| 0 <= t < 5 ==> (#[trigger] rows[t]).1 == g[t]);
                    assert(forall|t: int|
                        0 <= t < 5 ==> crate::position::pad_row((#[trigger] rows[t]).1, 3)
                            =~= g[t]);
                }
                assert(crate::position::apply_rows(v, rows, frec.start_pos) == Some(
                    PositionModel { wildcat_bulk: Some(g), ..frec.start_pos },
                ));
                assert(finish(v, st5) == Some(target)) by {
                    assert(PositionModel { wildcat_bulk: Some(g), ..frec.start_pos } =~~= p);
                    assert(GameRecordModel {
                        start_pos: PositionModel { wildcat_bulk: Some(g), ..frec.start_pos },
                        ..frec
                    } =~~= target);
                }
            }
        },
        None => {
            assert(rows.len() == 0);
            assert(crate::position::apply_rows(v, rows, frec.start_pos) == Some(frec.start_pos));
            assert(finish(v, st5) == Some(target)) by {
                assert(frec.start_pos =~~= p);
                assert(GameRecordModel { start_pos: frec.start_pos, ..frec } =~~= target);
            }
        },
    }
    assert(spec_parse_dialect(v, spec_position_csa(p)) == finish(v, st5));
}

} // verus!

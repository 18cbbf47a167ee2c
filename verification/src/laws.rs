//! Crate-level laws: properties of the whole pipeline that hold for every
//! input, proved from the specifications the parsing functions carry.

use vstd::prelude::*;

use crate::csa::{spec_detect, spec_detect_from, spec_parse_csa, Version};
use crate::engine::{finish, flush_pending, run_from, spec_parse_dialect, step, StModel};
use crate::lexical::classify_special;
use crate::text::{lemma_split_lines_nonempty, lemma_split_lines_push_newline, split_lines,
    starts_with, strip_cr, trim};
use crate::value::MoveRecord;

verus! {

proof fn lemma_detect_push_empty(lines: Seq<Seq<char>>, i: int)
    requires
        0 <= i <= lines.len(),
    ensures
        spec_detect_from(lines.push(Seq::<char>::empty()), i) == spec_detect_from(lines, i),
    decreases lines.len() - i,
{
    reveal_strlit("'CSA encoding=");
    reveal_strlit("V2");
    reveal_strlit("V2.1");
    reveal_strlit("V2.2");
    reveal_strlit("V3.0");
    let e = Seq::<char>::empty();
    let lines2 = lines.push(e);
    if i == lines.len() {
        assert(trim(lines2[i]) =~= e);
        assert(!starts_with(e, "'CSA encoding="@));
        assert(spec_detect_from(lines2, i) == spec_detect_from(lines2, i + 1));
    } else {
        assert(lines2[i] == lines[i]);
        lemma_detect_push_empty(lines, i + 1);
    }
}

pub proof fn lemma_run_push_empty(v: Version, lines: Seq<Seq<char>>, i: int, st: StModel)
    requires
        0 <= i <= lines.len(),
    ensures
        run_from(v, lines.push(Seq::<char>::empty()), i, st) == run_from(v, lines, i, st),
    decreases lines.len() - i,
{
    let e = Seq::<char>::empty();
    let lines2 = lines.push(e);
    if i == lines.len() {
        assert(strip_cr(e) =~= e);
        assert(step(v, st, e) == Some(st));
        assert(run_from(v, lines2, i, st) == run_from(v, lines2, i + 1, st));
    } else {
        assert(lines2[i] == lines[i]);
        match step(v, st, lines[i]) {
            Some(st2) => {
                lemma_run_push_empty(v, lines, i + 1, st2);
            },
            None => {
            },
        }
    }
}

/// Closing an input with one more line feed changes nothing: detection,
/// every dialect's parse, and the auto-detecting parse all read the same
/// record.
pub proof fn lemma_trailing_newline(s: Seq<char>)
    ensures
        forall|v: Version| spec_parse_dialect(v, s + seq!['\n']) == spec_parse_dialect(v, s),
        spec_detect(s + seq!['\n']) == spec_detect(s),
        spec_parse_csa(s + seq!['\n']) == spec_parse_csa(s),
{
    lemma_split_lines_push_newline(s);
    let lines = split_lines(s);
    lemma_detect_push_empty(lines, 0);
    assert forall|v: Version| spec_parse_dialect(v, s + seq!['\n']) == spec_parse_dialect(
        v,
        s,
    ) by {
        lemma_run_push_empty(v, lines, 0, StModel::init());
    }
}

/// Walk a successful fold back to the step that handled the final line.
proof fn lemma_run_last(v: Version, lines: Seq<Seq<char>>, i: int, st: StModel) -> (stp: StModel)
    requires
        0 <= i < lines.len(),
        run_from(v, lines, i, st) is Some,
    ensures
        step(v, stp, lines.last()) is Some,
        run_from(v, lines, i, st) == step(v, stp, lines.last()),
    decreases lines.len() - i,
{
    let st2 = step(v, st, lines[i]).unwrap();
    if i == lines.len() - 1 {
        st
    } else {
        lemma_run_last(v, lines, i + 1, st2)
    }
}

/// A terminal-event token on the last line, with or without a closing line
/// feed, always ends the move stream: the parsed record's final move record
/// carries that event and no elapsed time.
pub proof fn lemma_terminal_event_ends_moves(v: Version, s: Seq<char>)
    requires
        spec_parse_dialect(v, s) is Some,
        strip_cr(split_lines(s).last()).len() > 0,
        strip_cr(split_lines(s).last())[0] == '%',
    ensures
        spec_parse_dialect(v, s).unwrap().moves.len() > 0,
        spec_parse_dialect(v, s).unwrap().moves.last() == (MoveRecord {
            action: classify_special(v, strip_cr(split_lines(s).last())),
            time: None,
        }),
{
    let lines = split_lines(s);
    lemma_split_lines_nonempty(s);
    let stp = lemma_run_last(v, lines, 0, StModel::init());
    let st_end = run_from(v, lines, 0, StModel::init()).unwrap();
    let line = strip_cr(lines.last());
    let a = classify_special(v, line);
    reveal_strlit("V2");
    reveal_strlit("V2.1");
    reveal_strlit("V2.2");
    reveal_strlit("V3.0");
    assert(line != crate::csa::version_token(v)) by {
        if line == crate::csa::version_token(v) {
            assert(line[0] == 'V');
        }
    }
    assert(st_end.pending == Some(a));
    let m = spec_parse_dialect(v, s).unwrap();
    assert(m == finish(v, st_end).unwrap());
    assert(flush_pending(st_end.rec, st_end.pending).moves == st_end.rec.moves.push(
        MoveRecord { action: a, time: None },
    ));
    assert(m.moves == st_end.rec.moves.push(MoveRecord { action: a, time: None }));
}

/// During the fold no grid is ever set (only `finish` sets one), and every
/// square read from the input lies on the board.
spec fn fold_inv(st: StModel) -> bool {
    &&& st.rec.start_pos.bulk is None
    &&& st.rec.start_pos.minishogi_bulk is None
    &&& st.rec.start_pos.wildcat_bulk is None
    &&& forall|i: int|
        0 <= i < st.rec.start_pos.drop_pieces.len()
            ==> (#[trigger] st.rec.start_pos.drop_pieces[i]).0.wf()
    &&& forall|i: int|
        0 <= i < st.rec.start_pos.add_pieces.len()
            ==> (#[trigger] st.rec.start_pos.add_pieces[i]).1.wf()
}

/// A line whose substantive form is a grid row.
pub open spec fn is_grid_line(raw: Seq<char>) -> bool {
    let l = strip_cr(raw);
    l.len() >= 2 && l[0] == 'P' && 49 <= l[1] as u32 <= 57
}

proof fn lemma_step_inv(v: Version, st: StModel, raw: Seq<char>)
    requires
        fold_inv(st),
        step(v, st, raw) is Some,
    ensures
        fold_inv(step(v, st, raw).unwrap()),
        step(v, st, raw).unwrap().rows.len() > 0 <==> (st.rows.len() > 0 || is_grid_line(raw)),
{
    let line = strip_cr(raw);
    let st2 = step(v, st, raw).unwrap();
    reveal_strlit("V2");
    reveal_strlit("V2.1");
    reveal_strlit("V2.2");
    reveal_strlit("V3.0");
    assert(crate::csa::version_token(v)[0] == 'V');
    if line.len() > 0 && st.got_version && line[0] == 'P' && !(line[0] == '\'') {
        if line.len() >= 2 && line[1] == 'I' {
            crate::position::lemma_pairs_wf(line.subrange(2, line.len() as int));
        } else if line.len() >= 2 && (line[1] == '+' || line[1] == '-') {
            crate::position::lemma_pairs_wf(line.subrange(2, line.len() as int));
            let ps = crate::position::spec_parse_pairs(
                line.subrange(2, line.len() as int),
            ).unwrap();
            let mapped = ps.map_values(
                |p: (crate::value::Square, crate::value::PieceType)|
                    (crate::lexical::color_of_sign(line[1]), p.0, p.1),
            );
            assert(forall|i: int|
                0 <= i < st2.rec.start_pos.add_pieces.len() ==> (
                #[trigger] st2.rec.start_pos.add_pieces[i]).1.wf()) by {
                assert(forall|i: int| 0 <= i < mapped.len() ==> (#[trigger] mapped[i]).1
                    == ps[i].0);
            }
        }
    }
}

proof fn lemma_run_inv(v: Version, lines: Seq<Seq<char>>, i: int, st: StModel)
    requires
        0 <= i <= lines.len(),
        fold_inv(st),
        run_from(v, lines, i, st) is Some,
    ensures
        fold_inv(run_from(v, lines, i, st).unwrap()),
        run_from(v, lines, i, st).unwrap().rows.len() > 0 <==> (st.rows.len() > 0 || exists|j: int|
            i <= j < lines.len() && is_grid_line(#[trigger] lines[j])),
    decreases lines.len() - i,
{
    if i < lines.len() {
        lemma_step_inv(v, st, lines[i]);
        let st2 = step(v, st, lines[i]).unwrap();
        lemma_run_inv(v, lines, i + 1, st2);
    }
}

/// Exactly one of the three grid encodings is populated when the input
/// supplies a native grid section, and none otherwise — in particular,
/// piece-placement lines populate no grid. The whole parsed position is
/// well formed.
pub proof fn lemma_grid_exclusive(v: Version, s: Seq<char>)
    requires
        spec_parse_dialect(v, s) is Some,
    ensures
        spec_parse_dialect(v, s).unwrap().start_pos.wf(),
        spec_parse_dialect(v, s).unwrap().start_pos.grid_count() == 1 <==> (exists|j: int|
            0 <= j < split_lines(s).len() && is_grid_line(#[trigger] split_lines(s)[j])),
{
    let lines = split_lines(s);
    let st_end = run_from(v, lines, 0, StModel::init()).unwrap();
    lemma_run_inv(v, lines, 0, StModel::init());
    let frec = flush_pending(st_end.rec, st_end.pending);
    assert(frec.start_pos == st_end.rec.start_pos);
    let pos = crate::position::apply_rows(v, st_end.rows, frec.start_pos).unwrap();
    let rows = st_end.rows;
    if rows.len() == 0 {
        assert(pos.grid_count() == 0);
    } else {
        assert(pos.grid_count() == 1);
        if rows.len() == 9 && crate::position::row_nums_ok(rows) {
            let g = crate::position::grid_of_rows(rows, 9);
            assert(crate::value::grid_wf(g, 9, 9)) by {
                assert(forall|i: int| 0 <= i < 9 ==> (#[trigger] g[i]).len() == 9);
            }
        } else {
            if crate::position::all_rows_len(rows, 3) {
                let g = crate::position::grid_of_rows(rows, 3);
                assert(crate::value::grid_wf(g, 5, 3)) by {
                    assert(forall|i: int| 0 <= i < 5 ==> (#[trigger] g[i]).len() == 3);
                }
            } else {
                let g = crate::position::grid_of_rows(rows, 5);
                assert(crate::value::grid_wf(g, 5, 5)) by {
                    assert(forall|i: int| 0 <= i < 5 ==> (#[trigger] g[i]).len() == 5);
                }
            }
        }
    }
}

} // verus!

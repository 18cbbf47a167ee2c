//! Position assembly: handicap pairs, piece-placement runs, grid-row cells,
//! and the classification of collected grid rows into the one board shape a
//! record may carry.

use vstd::prelude::*;

use crate::csa::Version;
use crate::lexical::{color_of_sign, has_reduced_boards, parse_color, parse_piece_type,
    parse_square, piece_of_code, square_of_digits};
use crate::text::is_digit;
use crate::value::{Cell, Color, PieceType, PositionModel, Square};

verus! {

/// A run of `(square)(piece)` groups, four characters each.
pub open spec fn spec_parse_pairs(s: Seq<char>) -> Option<Seq<(Square, PieceType)>>
    decreases s.len(),
{
    if s.len() == 0 {
        Some(Seq::empty())
    } else if s.len() < 4 {
        None
    } else if is_digit(s[0]) && is_digit(s[1]) {
        match piece_of_code(s[2], s[3]) {
            Some(p) => match spec_parse_pairs(s.skip(4)) {
                Some(rest) => Some(seq![(square_of_digits(s[0], s[1]), p)] + rest),
                None => None,
            },
            None => None,
        }
    } else {
        None
    }
}

/// Every square of an accepted run lies on the board.
pub proof fn lemma_pairs_wf(s: Seq<char>)
    requires
        spec_parse_pairs(s) is Some,
    ensures
        forall|i: int|
            0 <= i < spec_parse_pairs(s).unwrap().len() ==> (#[trigger] spec_parse_pairs(
                s,
            ).unwrap()[i]).0.wf(),
    decreases s.len(),
{
    if s.len() >= 4 {
        lemma_pairs_wf(s.skip(4));
    }
}

/// Parse the `(square)(piece)` run in `v[start..end]`.
pub fn parse_pairs(v: &Vec<char>, start: usize, end: usize) -> (r: Option<
    Vec<(Square, PieceType)>,
>)
    requires
        start <= end <= v@.len(),
    ensures
        match r {
            Some(ps) => spec_parse_pairs(v@.subrange(start as int, end as int)) == Some(ps@),
            None => spec_parse_pairs(v@.subrange(start as int, end as int)) is None,
        },
{
    let ghost s = v@.subrange(start as int, end as int);
    let mut acc: Vec<(Square, PieceType)> = Vec::new();
    let mut i: usize = start;
    proof {
        assert(s.skip(0) =~= s);
        if spec_parse_pairs(s) is Some {
            assert(acc@ + spec_parse_pairs(s).unwrap() =~= spec_parse_pairs(s).unwrap());
        }
    }
    while i < end
        invariant
            start <= i <= end <= v@.len(),
            s == v@.subrange(start as int, end as int),
            (i - start) % 4 == 0,
            ({
                let tail = s.skip(i - start);
                match spec_parse_pairs(tail) {
                    Some(rest) => spec_parse_pairs(s) == Some(acc@ + rest),
                    None => spec_parse_pairs(s) is None,
                }
            }),
        decreases end - i,
    {
        let ghost tail = s.skip(i - start);
        if end - i < 4 {
            proof {
                assert(tail.len() < 4 && tail.len() > 0);
            }
            return None;
        }
        let c0 = v[i];
        let c1 = v[i + 1];
        let c2 = v[i + 2];
        let c3 = v[i + 3];
        proof {
            assert(tail[0] == c0 && tail[1] == c1 && tail[2] == c2 && tail[3] == c3);
        }
        let u0 = c0 as u32;
        let u1 = c1 as u32;
        if u0 < 48 || u0 > 57 || u1 < 48 || u1 > 57 {
            return None;
        }
        let p = match parse_piece_type(c2, c3) {
            Some(p) => p,
            None => {
                return None;
            },
        };
        let sq = parse_square(c0, c1);
        acc.push((sq, p));
        proof {
            assert(tail.skip(4) =~= s.skip(i - start + 4));
            assert(acc@ =~= acc@.subrange(0, acc@.len() - 1) + seq![(sq, p)]);
            if spec_parse_pairs(s.skip(i - start + 4)) is Some {
                let rest = spec_parse_pairs(s.skip(i - start + 4)).unwrap();
                assert(spec_parse_pairs(tail) == Some(seq![(sq, p)] + rest));
                assert((acc@.subrange(0, acc@.len() - 1) + (seq![(sq, p)] + rest)) =~= (acc@
                    + rest));
            }
        }
        i = i + 4;
    }
    proof {
        assert(s.skip(end - start) =~= Seq::<(char)>::empty().map_values(|c: char| c));
        assert(s.skip(end - start).len() == 0);
        assert(acc@ + Seq::<(Square, PieceType)>::empty() =~= acc@);
    }
    Some(acc)
}

/// A grid row's cells: three characters each, an empty cell or a signed
/// piece code.
pub open spec fn spec_parse_cells(s: Seq<char>) -> Option<Seq<Cell>>
    decreases s.len(),
{
    if s.len() == 0 {
        Some(Seq::empty())
    } else if s.len() < 3 {
        None
    } else {
        let head: Option<Cell> = if s[0] == ' ' && s[1] == '*' && s[2] == ' ' {
            Some(None)
        } else if (s[0] == '+' || s[0] == '-') && piece_of_code(s[1], s[2]) is Some {
            Some(Some((color_of_sign(s[0]), piece_of_code(s[1], s[2]).unwrap())))
        } else {
            None
        };
        match head {
            Some(cell) => match spec_parse_cells(s.skip(3)) {
                Some(rest) => Some(seq![cell] + rest),
                None => None,
            },
            None => None,
        }
    }
}

/// Parse the grid-row cells in `v[start..end]`.
pub fn parse_cells(v: &Vec<char>, start: usize, end: usize) -> (r: Option<Vec<Cell>>)
    requires
        start <= end <= v@.len(),
    ensures
        match r {
            Some(cs) => spec_parse_cells(v@.subrange(start as int, end as int)) == Some(cs@),
            None => spec_parse_cells(v@.subrange(start as int, end as int)) is None,
        },
{
    let ghost s = v@.subrange(start as int, end as int);
    let mut acc: Vec<Cell> = Vec::new();
    let mut i: usize = start;
    proof {
        assert(s.skip(0) =~= s);
        if spec_parse_cells(s) is Some {
            assert(acc@ + spec_parse_cells(s).unwrap() =~= spec_parse_cells(s).unwrap());
        }
    }
    while i < end
        invariant
            start <= i <= end <= v@.len(),
            s == v@.subrange(start as int, end as int),
            (i - start) % 3 == 0,
            ({
                let tail = s.skip(i - start);
                match spec_parse_cells(tail) {
                    Some(rest) => spec_parse_cells(s) == Some(acc@ + rest),
                    None => spec_parse_cells(s) is None,
                }
            }),
        decreases end - i,
    {
        let ghost tail = s.skip(i - start);
        if end - i < 3 {
            proof {
                assert(tail.len() < 3 && tail.len() > 0);
            }
            return None;
        }
        let c0 = v[i];
        let c1 = v[i + 1];
        let c2 = v[i + 2];
        proof {
            assert(tail[0] == c0 && tail[1] == c1 && tail[2] == c2);
        }
        let cell: Cell;
        if c0 == ' ' && c1 == '*' && c2 == ' ' {
            cell = None;
        } else if c0 == '+' || c0 == '-' {
            match parse_piece_type(c1, c2) {
                Some(p) => {
                    let col = parse_color(c0);
                    cell = Some((col, p));
                },
                None => {
                    return None;
                },
            }
        } else {
            return None;
        }
        acc.push(cell);
        proof {
            assert(tail.skip(3) =~= s.skip(i - start + 3));
            assert(acc@ =~= acc@.subrange(0, acc@.len() - 1) + seq![cell]);
            if spec_parse_cells(s.skip(i - start + 3)) is Some {
                let rest = spec_parse_cells(s.skip(i - start + 3)).unwrap();
                assert(spec_parse_cells(tail) == Some(seq![cell] + rest));
                assert((acc@.subrange(0, acc@.len() - 1) + (seq![cell] + rest)) =~= (acc@ + rest));
            }
        }
        i = i + 3;
    }
    proof {
        assert(s.skip(end - start).len() == 0);
        assert(acc@ + Seq::<Cell>::empty() =~= acc@);
    }
    Some(acc)
}

/// One collected grid row: its digit and its cells.
pub type GridRow = (u8, Vec<Cell>);

/// The view of collected grid rows.
pub open spec fn rows_view(rows: Seq<GridRow>) -> Seq<(u8, Seq<Cell>)> {
    rows.map_values(|r: GridRow| (r.0, r.1@))
}

/// Row digits count 1, 2, 3, ... in file order.
pub open spec fn row_nums_ok(rows: Seq<(u8, Seq<Cell>)>) -> bool {
    forall|i: int| 0 <= i < rows.len() ==> (#[trigger] rows[i]).0 == i + 1
}

/// A row cut or padded to the board width.
pub open spec fn pad_row(cells: Seq<Cell>, w: int) -> Seq<Cell> {
    Seq::new(w as nat, |j: int| if j < cells.len() { cells[j] } else { None })
}

/// The board the collected rows fill, row-major.
pub open spec fn grid_of_rows(rows: Seq<(u8, Seq<Cell>)>, w: int) -> Seq<Seq<Cell>> {
    Seq::new(rows.len(), |i: int| pad_row(rows[i].1, w))
}

pub open spec fn all_rows_len(rows: Seq<(u8, Seq<Cell>)>, w: int) -> bool {
    forall|i: int| 0 <= i < rows.len() ==> (#[trigger] rows[i]).1.len() == w
}

/// Which board the collected grid rows describe: none when no grid section
/// appeared; nine rows make the standard board; five rows make a reduced
/// board, a width of exactly three cells everywhere the narrow one, only in
/// the dialect that has reduced boards; anything else violates the grammar.
pub open spec fn apply_rows(v: Version, rows: Seq<(u8, Seq<Cell>)>, pos: PositionModel) -> Option<
    PositionModel,
> {
    if rows.len() == 0 {
        Some(pos)
    } else if rows.len() == 9 && row_nums_ok(rows) {
        Some(PositionModel { bulk: Some(grid_of_rows(rows, 9)), ..pos })
    } else if rows.len() == 5 && row_nums_ok(rows) && has_reduced_boards(v) {
        if all_rows_len(rows, 3) {
            Some(PositionModel { wildcat_bulk: Some(grid_of_rows(rows, 3)), ..pos })
        } else {
            Some(PositionModel { minishogi_bulk: Some(grid_of_rows(rows, 5)), ..pos })
        }
    } else {
        None
    }
}

/// Build the executable board for the collected rows.
pub fn build_grid(rows: &Vec<GridRow>, w: usize) -> (r: Vec<Vec<Cell>>)
    ensures
        crate::value::grid_view(r) == grid_of_rows(rows_view(rows@), w as int),
{
    let mut g: Vec<Vec<Cell>> = Vec::new();
    let mut i: usize = 0;
    while i < rows.len()
        invariant
            i <= rows@.len(),
            g@.len() == i,
            forall|k: int|
                0 <= k < i ==> (#[trigger] g@[k])@ == pad_row(rows_view(rows@)[k].1, w as int),
        decreases rows@.len() - i,
    {
        let cells = &rows[i].1;
        let mut row: Vec<Cell> = Vec::new();
        let mut j: usize = 0;
        while j < w
            invariant
                j <= w,
                row@.len() == j,
                forall|k: int|
                    0 <= k < j ==> row@[k] == (if k < cells@.len() {
                        cells@[k]
                    } else {
                        None::<(Color, PieceType)>
                    }),
            decreases w - j,
        {
            if j < cells.len() {
                row.push(cells[j]);
            } else {
                row.push(None);
            }
            j = j + 1;
        }
        proof {
            assert(row@ =~= pad_row(cells@, w as int));
            assert(rows_view(rows@)[i as int].1 == cells@);
        }
        g.push(row);
        i = i + 1;
    }
    proof {
        assert(crate::value::grid_view(g) =~~= grid_of_rows(rows_view(rows@), w as int));
    }
    g
}

} // verus!

//! Writing a starting position back to record text. This exists for the
//! board round trip: a parsed position, written out and parsed again, is
//! the same position.

use vstd::prelude::*;

use crate::lexical::{code_of_piece, piece_code_str};
use crate::value::{Cell, Color, PieceType, Position, PositionModel, Square};
use crate::text::push_char;

verus! {

/// The sign character of a color.
pub open spec fn sign_of_color(c: Color) -> char {
    if c is Black {
        '+'
    } else {
        '-'
    }
}

pub fn color_sign_char(c: Color) -> (r: char)
    ensures
        r == sign_of_color(c),
{
    match c {
        Color::Black => '+',
        Color::White => '-',
    }
}

/// The character of one decimal digit.
pub open spec fn char_of_digit(d: int) -> char {
    if d == 0 {
        '0'
    } else if d == 1 {
        '1'
    } else if d == 2 {
        '2'
    } else if d == 3 {
        '3'
    } else if d == 4 {
        '4'
    } else if d == 5 {
        '5'
    } else if d == 6 {
        '6'
    } else if d == 7 {
        '7'
    } else if d == 8 {
        '8'
    } else {
        '9'
    }
}

pub fn digit_char(d: u8) -> (c: char)
    requires
        d <= 9,
    ensures
        c == char_of_digit(d as int),
{
    match d {
        0 => '0',
        1 => '1',
        2 => '2',
        3 => '3',
        4 => '4',
        5 => '5',
        6 => '6',
        7 => '7',
        8 => '8',
        _ => '9',
    }
}

/// A digit character reads back as its digit.
pub proof fn lemma_digit_char_roundtrip(d: int)
    requires
        0 <= d <= 9,
    ensures
        crate::text::is_digit(char_of_digit(d)),
        crate::text::digit_val(char_of_digit(d)) == d,
{
}

/// One board cell as its three characters.
pub open spec fn csa_of_cell(c: Cell) -> Seq<char> {
    match c {
        None => seq![' ', '*', ' '],
        Some((col, p)) => seq![sign_of_color(col)] + code_of_piece(p),
    }
}

/// A whole grid row, cell by cell.
pub open spec fn csa_of_row(cells: Seq<Cell>) -> Seq<char>
    decreases cells.len(),
{
    if cells.len() == 0 {
        Seq::empty()
    } else {
        csa_of_row(cells.drop_last()) + csa_of_cell(cells.last())
    }
}

/// One `(square)(piece)` group.
pub open spec fn csa_of_pair(p: (Square, PieceType)) -> Seq<char> {
    seq![char_of_digit(p.0.file as int), char_of_digit(p.0.rank as int)] + code_of_piece(p.1)
}

/// A run of `(square)(piece)` groups.
pub open spec fn csa_of_pairs(ps: Seq<(Square, PieceType)>) -> Seq<char>
    decreases ps.len(),
{
    if ps.len() == 0 {
        Seq::empty()
    } else {
        csa_of_pairs(ps.drop_last()) + csa_of_pair(ps.last())
    }
}

/// The handicap line, absent when no piece was removed.
pub open spec fn pi_lines_of(dp: Seq<(Square, PieceType)>) -> Seq<Seq<char>> {
    if dp.len() == 0 {
        Seq::empty()
    } else {
        seq![seq!['P', 'I'] + csa_of_pairs(dp)]
    }
}

/// The handicap line of a position.
pub open spec fn pi_lines(p: PositionModel) -> Seq<Seq<char>> {
    pi_lines_of(p.drop_pieces)
}

/// One grid-row line for row index `i` (zero based).
pub open spec fn grid_line(i: int, cells: Seq<Cell>) -> Seq<char> {
    seq!['P', char_of_digit(i + 1)] + csa_of_row(cells)
}

/// The grid lines of whichever board the position carries.
pub open spec fn grid_lines(p: PositionModel) -> Seq<Seq<char>> {
    match p.bulk {
        Some(g) => Seq::new(g.len(), |i: int| grid_line(i, g[i])),
        None => match p.minishogi_bulk {
            Some(g) => Seq::new(g.len(), |i: int| grid_line(i, g[i])),
            None => match p.wildcat_bulk {
                Some(g) => Seq::new(g.len(), |i: int| grid_line(i, g[i])),
                None => Seq::empty(),
            },
        },
    }
}

/// One placement line per placed piece, keeping file order.
pub open spec fn placement_lines(add: Seq<(Color, Square, PieceType)>) -> Seq<Seq<char>> {
    Seq::new(
        add.len(),
        |i: int| seq!['P', sign_of_color(add[i].0)] + csa_of_pair((add[i].1, add[i].2)),
    )
}

/// All the lines a position writes out as.
pub open spec fn pos_lines(p: PositionModel) -> Seq<Seq<char>> {
    pi_lines(p) + grid_lines(p) + placement_lines(p.add_pieces) + seq![
        seq![sign_of_color(p.side_to_move)],
    ]
}

/// The lines joined to one text, each closed by a line feed.
pub open spec fn join_lines(ls: Seq<Seq<char>>) -> Seq<char>
    decreases ls.len(),
{
    if ls.len() == 0 {
        Seq::empty()
    } else {
        ls[0] + seq!['\n'] + join_lines(ls.drop_first())
    }
}

pub proof fn lemma_join_push(ls: Seq<Seq<char>>, l: Seq<char>)
    ensures
        join_lines(ls.push(l)) == join_lines(ls) + l + seq!['\n'],
    decreases ls.len(),
{
    if ls.len() == 0 {
        assert(ls.push(l)[0] == l);
        assert(ls.push(l).drop_first() =~= Seq::<Seq<char>>::empty());
        assert(join_lines(ls) =~= Seq::<char>::empty());
        assert(join_lines(ls.push(l).drop_first()) =~= Seq::<char>::empty());
        assert(join_lines(ls.push(l)) =~= join_lines(ls) + l + seq!['\n']);
    } else {
        lemma_join_push(ls.drop_first(), l);
        assert(ls.push(l).drop_first() =~= ls.drop_first().push(l));
        assert(ls.push(l)[0] == ls[0]);
        assert(join_lines(ls.push(l)) =~= join_lines(ls) + l + seq!['\n']);
    }
}

pub proof fn lemma_join_concat(a: Seq<Seq<char>>, b: Seq<Seq<char>>)
    ensures
        join_lines(a + b) == join_lines(a) + join_lines(b),
    decreases a.len(),
{
    if a.len() == 0 {
        assert(a + b =~= b);
        assert(join_lines(a) + join_lines(b) =~= join_lines(b));
    } else {
        lemma_join_concat(a.drop_first(), b);
        assert((a + b).drop_first() =~= a.drop_first() + b);
        assert((a + b)[0] == a[0]);
        assert(join_lines(a + b) =~= join_lines(a) + join_lines(b));
    }
}

/// The full record text of a position: the one dialect with every board
/// shape, then the position's lines.
pub open spec fn spec_position_csa(p: PositionModel) -> Seq<char> {
    "V2.2\n"@ + join_lines(pos_lines(p))
}

/// Write the `(square)(piece)` groups.
fn push_pairs(s: &mut String, ps: &Vec<(Square, PieceType)>)
    requires
        forall|i: int| 0 <= i < ps@.len() ==> (#[trigger] ps@[i]).0.wf(),
    ensures
        final(s)@ == old(s)@ + csa_of_pairs(ps@),
{
    let ghost s0 = s@;
    let mut j: usize = 0;
    proof {
        assert(s@ =~= s0 + csa_of_pairs(ps@.take(0)));
    }
    while j < ps.len()
        invariant
            j <= ps@.len(),
            forall|i: int| 0 <= i < ps@.len() ==> (#[trigger] ps@[i]).0.wf(),
            s@ == s0 + csa_of_pairs(ps@.take(j as int)),
        decreases ps@.len() - j,
    {
        let (sq, pt) = ps[j];
        push_char(s, digit_char(sq.file));
        push_char(s, digit_char(sq.rank));
        s.append(piece_code_str(pt));
        j = j + 1;
        proof {
            assert(ps@.take(j as int).drop_last() =~= ps@.take(j - 1));
            assert(ps@.take(j as int).last() == (sq, pt));
            assert(s@ =~= s0 + csa_of_pairs(ps@.take(j as int)));
        }
    }
    proof {
        assert(ps@.take(ps@.len() as int) =~= ps@);
    }
}

/// Write one grid row's cells.
fn push_row(s: &mut String, cells: &Vec<Cell>)
    ensures
        final(s)@ == old(s)@ + csa_of_row(cells@),
{
    let ghost s0 = s@;
    let mut j: usize = 0;
    proof {
        assert(s@ =~= s0 + csa_of_row(cells@.take(0)));
    }
    while j < cells.len()
        invariant
            j <= cells@.len(),
            s@ == s0 + csa_of_row(cells@.take(j as int)),
        decreases cells@.len() - j,
    {
        match cells[j] {
            None => {
                s.append(" * ");
            },
            Some((col, pt)) => {
                push_char(s, color_sign_char(col));
                s.append(piece_code_str(pt));
            },
        }
        j = j + 1;
        proof {
            assert(cells@.take(j as int).drop_last() =~= cells@.take(j - 1));
            assert(cells@.take(j as int).last() == cells@[j - 1]);
            if cells@[j - 1] is None {
                reveal_strlit(" * ");
                assert(" * "@ =~= csa_of_cell(None));
            }
            assert(s@ =~= s0 + csa_of_row(cells@.take(j as int)));
        }
    }
    proof {
        assert(cells@.take(cells@.len() as int) =~= cells@);
    }
}

/// Write the lines of one grid.
fn push_grid(s: &mut String, g: &Vec<Vec<Cell>>)
    requires
        g@.len() <= 9,
    ensures
        final(s)@ == old(s)@ + join_lines(
            Seq::new(
                crate::value::grid_view(*g).len(),
                |i: int| grid_line(i, crate::value::grid_view(*g)[i]),
            ),
        ),
{
    let ghost gv = crate::value::grid_view(*g);
    let ghost lines = Seq::new(gv.len(), |i: int| grid_line(i, gv[i]));
    let ghost s0 = s@;
    let mut j: usize = 0;
    proof {
        assert(s@ =~= s0 + join_lines(lines.take(0)));
    }
    while j < g.len()
        invariant
            j <= g@.len() <= 9,
            gv == crate::value::grid_view(*g),
            lines == Seq::new(gv.len(), |i: int| grid_line(i, gv[i])),
            s@ == s0 + join_lines(lines.take(j as int)),
        decreases g@.len() - j,
    {
        push_char(s, 'P');
        push_char(s, digit_char((j + 1) as u8));
        push_row(s, &g[j]);
        push_char(s, '\n');
        j = j + 1;
        proof {
            assert(lines.take(j as int).drop_last() =~= lines.take(j - 1));
            lemma_join_push(lines.take(j - 1), lines[j - 1]);
            assert(lines.take(j as int) =~= lines.take(j - 1).push(lines[j - 1]));
            assert(gv[j - 1] == g@[j - 1]@);
            assert(lines[j - 1] =~= seq!['P', char_of_digit(j as int)] + csa_of_row(g@[j - 1]@));
            assert(s@ =~= s0 + join_lines(lines.take(j as int)));
        }
    }
    proof {
        assert(lines.take(lines.len() as int) =~= lines);
    }
}

/// Write the handicap line, if any pieces are removed.
fn push_handicap(s: &mut String, dp: &Vec<(Square, PieceType)>)
    requires
        forall|i: int| 0 <= i < dp@.len() ==> (#[trigger] dp@[i]).0.wf(),
    ensures
        final(s)@ == old(s)@ + join_lines(pi_lines_of(dp@)),
{
    if dp.len() > 0 {
        s.append("PI");
        push_pairs(s, dp);
        push_char(s, '\n');
        proof {
            reveal_strlit("PI");
            assert("PI"@ =~= seq!['P', 'I']);
            assert(pi_lines_of(dp@) =~= seq![seq!['P', 'I'] + csa_of_pairs(dp@)]);
            lemma_join_push(Seq::<Seq<char>>::empty(), pi_lines_of(dp@)[0]);
            assert(s@ =~= old(s)@ + join_lines(pi_lines_of(dp@)));
        }
    } else {
        proof {
            assert(join_lines(pi_lines_of(dp@)) =~= Seq::<char>::empty());
            assert(s@ =~= old(s)@ + join_lines(pi_lines_of(dp@)));
        }
    }
}

/// Write the placement lines, one per placed piece.
fn push_placements(s: &mut String, add: &Vec<(Color, Square, PieceType)>)
    requires
        forall|i: int| 0 <= i < add@.len() ==> (#[trigger] add@[i]).1.wf(),
    ensures
        final(s)@ == old(s)@ + join_lines(placement_lines(add@)),
{
    let ghost s0 = s@;
    let ghost plines = placement_lines(add@);
    let mut j: usize = 0;
    proof {
        assert(s@ =~= s0 + join_lines(plines.take(0)));
    }
    while j < add.len()
        invariant
            j <= add@.len(),
            forall|i: int| 0 <= i < add@.len() ==> (#[trigger] add@[i]).1.wf(),
            plines == placement_lines(add@),
            s@ == s0 + join_lines(plines.take(j as int)),
        decreases add@.len() - j,
    {
        let (col, sq, pt) = add[j];
        push_char(s, 'P');
        push_char(s, color_sign_char(col));
        push_char(s, digit_char(sq.file));
        push_char(s, digit_char(sq.rank));
        s.append(piece_code_str(pt));
        push_char(s, '\n');
        j = j + 1;
        proof {
            assert(plines.take(j as int) =~= plines.take(j - 1).push(plines[j - 1]));
            lemma_join_push(plines.take(j - 1), plines[j - 1]);
            assert(plines[j - 1] =~= seq!['P', sign_of_color(col)] + csa_of_pair((sq, pt)));
            assert(s@ =~= s0 + join_lines(plines.take(j as int)));
        }
    }
    proof {
        assert(plines.take(plines.len() as int) =~= plines);
    }
}

/// Write the grid lines of whichever board the position carries.
fn push_grid_lines(s: &mut String, pos: &Position)
    requires
        pos@.wf(),
    ensures
        final(s)@ == old(s)@ + join_lines(grid_lines(pos@)),
{
    let ghost p = pos@;
    if let Some(g) = &pos.bulk {
        push_grid(s, g);
        proof {
            assert(crate::value::grid_view(*g).len() == 9);
            assert(grid_lines(p) =~~= Seq::new(
                crate::value::grid_view(*g).len(),
                |i: int| grid_line(i, crate::value::grid_view(*g)[i]),
            ));
        }
    } else if let Some(g) = &pos.minishogi_bulk {
        push_grid(s, g);
        proof {
            assert(crate::value::grid_view(*g).len() == 5);
            assert(grid_lines(p) =~~= Seq::new(
                crate::value::grid_view(*g).len(),
                |i: int| grid_line(i, crate::value::grid_view(*g)[i]),
            ));
        }
    } else if let Some(g) = &pos.wildcat_bulk {
        push_grid(s, g);
        proof {
            assert(crate::value::grid_view(*g).len() == 5);
            assert(grid_lines(p) =~~= Seq::new(
                crate::value::grid_view(*g).len(),
                |i: int| grid_line(i, crate::value::grid_view(*g)[i]),
            ));
        }
    } else {
        proof {
            assert(grid_lines(p) =~~= Seq::<Seq<char>>::empty());
            assert(join_lines(grid_lines(p)) =~= Seq::<char>::empty());
            assert(s@ =~= old(s)@ + join_lines(grid_lines(p)));
        }
    }
}

impl Position {
    /// The record text of this starting position under the dialect with
    /// every board shape: handicap, board, placements and side to move,
    /// behind a version line.
    pub fn to_csa(&self) -> (r: String)
        requires
            self@.wf(),
        ensures
            r@ == spec_position_csa(self@),
    {
        let ghost p = self@;
        let mut s = String::new();
        s.append("V2.2\n");
        let ghost base = "V2.2\n"@;
        proof {
            assert(s@ =~= base);
            assert(p.drop_pieces == self.drop_pieces@);
            assert(p.add_pieces == self.add_pieces@);
        }
        push_handicap(&mut s, &self.drop_pieces);
        push_grid_lines(&mut s, self);
        push_placements(&mut s, &self.add_pieces);
        let ghost done3 = base + join_lines(pi_lines(p)) + join_lines(grid_lines(p))
            + join_lines(placement_lines(p.add_pieces));
        proof {
            assert(s@ =~= done3);
        }
        push_char(&mut s, color_sign_char(self.side_to_move));
        push_char(&mut s, '\n');
        proof {
            let side = seq![seq![sign_of_color(p.side_to_move)]];
            lemma_join_push(Seq::<Seq<char>>::empty(), side[0]);
            assert(join_lines(side) =~= seq![sign_of_color(p.side_to_move)] + seq!['\n']);
            assert(s@ =~= done3 + join_lines(side));
            lemma_join_concat(pi_lines(p) + grid_lines(p) + placement_lines(p.add_pieces), side);
            lemma_join_concat(pi_lines(p) + grid_lines(p), placement_lines(p.add_pieces));
            lemma_join_concat(pi_lines(p), grid_lines(p));
            assert(pos_lines(p) == pi_lines(p) + grid_lines(p) + placement_lines(p.add_pieces)
                + side);
            assert(s@ =~= base + join_lines(pos_lines(p)));
            assert(s@ =~= spec_position_csa(p));
        }
        s
    }
}

} // verus!

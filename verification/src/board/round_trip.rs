use vstd::prelude::*;
use crate::board::board::{BoardView, CastlingSide};
use crate::board::color::Color;
use crate::board::coordinates::{Coordinates, Rank};
use crate::board::diagram::{
    border,
    cell,
    cells_from,
    diagram,
    diagram_lines,
    file_labels,
    indent,
    joined,
    rank_line,
};
use crate::board::parser::{
    border_rights,
    cell_at_front,
    cell_width,
    is_space,
    lines_of,
    parsed,
    trim_end,
    trim_start,
    trimmed,
    with_border,
    with_cell,
    with_cells,
    with_rank,
    with_ranks,
    Cell,
    ParseBoardError,
};
use crate::board::piece::Piece;
use crate::board::square::Square;

verus! {

/// What a diagram shows of a board: everything but what stands on the
/// en-passant target, which the star covers.
pub open spec fn shown(b: BoardView) -> BoardView {
    match b.en_passant {
        Some(c) => b.put(c, Square::Empty),
        None => b,
    }
}

/// Whether a text holds no line break.
pub open spec fn no_breaks(s: Seq<char>) -> bool {
    forall|i: int| 0 <= i < s.len() ==> s[i] != '\n'
}

/// Whether a text has no white space at either end, and is not empty.
pub open spec fn solid(s: Seq<char>) -> bool {
    s.len() > 0 && !is_space(s[0]) && !is_space(s.last())
}

/// Whether a text is white space throughout.
pub open spec fn all_space(s: Seq<char>) -> bool {
    forall|i: int| 0 <= i < s.len() ==> is_space(s[i])
}

/// White space before a text that starts with something else is what
/// trimming the start takes away.
pub proof fn lemma_trim_start(space: Seq<char>, rest: Seq<char>)
    requires
        all_space(space),
        rest.len() == 0 || !is_space(rest[0]),
    ensures
        trim_start(space + rest) == rest,
    decreases space.len(),
{
    if space.len() == 0 {
        assert(space + rest =~= rest);
    } else {
        assert((space + rest).drop_first() =~= space.drop_first() + rest);
        lemma_trim_start(space.drop_first(), rest);
    }
}

/// White space behind a text that ends with something else is what
/// trimming the end takes away.
pub proof fn lemma_trim_end(rest: Seq<char>, space: Seq<char>)
    requires
        all_space(space),
        rest.len() == 0 || !is_space(rest.last()),
    ensures
        trim_end(rest + space) == rest,
    decreases space.len(),
{
    if space.len() == 0 {
        assert(rest + space =~= rest);
    } else {
        assert((rest + space).drop_last() =~= rest + space.drop_last());
        lemma_trim_end(rest, space.drop_last());
    }
}

/// Trimming takes the white space around a solid text away, and nothing
/// else.
pub proof fn lemma_trimmed(before: Seq<char>, s: Seq<char>, after: Seq<char>)
    requires
        all_space(before),
        all_space(after),
        solid(s),
    ensures
        trimmed(before + s + after) == s,
{
    assert(before + s + after =~= before + (s + after));
    lemma_trim_start(before, s + after);
    lemma_trim_end(s, after);
}

/// A solid text is left as it is by trimming.
pub proof fn lemma_trimmed_solid(s: Seq<char>)
    requires
        solid(s),
    ensures
        trimmed(s) == s,
{
    lemma_trimmed(Seq::empty(), s, Seq::empty());
}

/// A text without a line break is one line.
pub proof fn lemma_lines_single(l: Seq<char>)
    requires
        no_breaks(l),
    ensures
        lines_of(l) == seq![l],
    decreases l.len(),
{
    if l.len() == 0 {
        assert(l =~= Seq::empty());
    } else {
        lemma_lines_single(l.drop_last());
        let before = seq![l.drop_last()];
        assert(before.last().push(l.last()) =~= l);
    }
}

/// A line break and a text without one add one line to a text.
pub proof fn lemma_lines_append(a: Seq<char>, l: Seq<char>)
    requires
        no_breaks(l),
    ensures
        lines_of(a + seq!['\n'] + l) == lines_of(a).push(l),
    decreases l.len(),
{
    let whole = a + seq!['\n'] + l;
    if l.len() == 0 {
        assert(whole.drop_last() =~= a);
        assert(l =~= Seq::empty());
    } else {
        assert(whole.drop_last() =~= a + seq!['\n'] + l.drop_last());
        lemma_lines_append(a, l.drop_last());
        let before = lines_of(a).push(l.drop_last());
        assert(before.last().push(l.last()) =~= l);
    }
}

/// The lines of joined lines are those lines, if none of them holds a
/// line break.
pub proof fn lemma_lines_joined(lines: Seq<Seq<char>>)
    requires
        lines.len() >= 1,
        forall|i: int| 0 <= i < lines.len() ==> no_breaks(#[trigger] lines[i]),
    ensures
        lines_of(joined(lines)) == lines,
    decreases lines.len(),
{
    if lines.len() == 1 {
        lemma_lines_single(lines[0]);
    } else {
        lemma_lines_joined(lines.drop_last());
        lemma_lines_append(joined(lines.drop_last()), lines.last());
    }
}

/// Joined lines start as the first line starts and end as the last ends.
pub proof fn lemma_joined_ends(lines: Seq<Seq<char>>)
    requires
        lines.len() >= 1,
        lines[0].len() > 0,
        lines.last().len() > 0,
    ensures
        joined(lines).len() > 0,
        joined(lines)[0] == lines[0][0],
        joined(lines).last() == lines.last().last(),
{
    lemma_joined_first(lines);
}

/// Joined lines start as the first line starts.
pub proof fn lemma_joined_first(lines: Seq<Seq<char>>)
    requires
        lines.len() >= 1,
        lines[0].len() > 0,
    ensures
        joined(lines).len() > 0,
        joined(lines)[0] == lines[0][0],
    decreases lines.len(),
{
    if lines.len() > 1 {
        lemma_joined_first(lines.drop_last());
    }
}

/// A border line is solid, holds no line break, and shows the castling
/// rights it was drawn from.
pub proof fn lemma_border(queen_side: bool, king_side: bool)
    ensures
        solid(border(queen_side, king_side)),
        no_breaks(border(queen_side, king_side)),
        border_rights(border(queen_side, king_side)) == Some((queen_side, king_side)),
{
    let line = border(queen_side, king_side);
    assert(line[2] == (if queen_side { 'v' } else { '-' }));
    assert(line[16] == (if king_side { 'v' } else { '-' }));
}

/// What the diagram's cell for a square shows.
pub open spec fn shown_cell(b: BoardView, c: Coordinates) -> Cell {
    if b.en_passant == Some(c) {
        Cell::Star
    } else {
        match b.at(c) {
            Square::Occupied(piece) => Cell::Piece(piece),
            Square::Empty => Cell::Blank,
        }
    }
}

/// The text of a cell reads back as what the cell shows, whatever comes
/// behind it; it is as wide as the cell, and holds no line break.
pub proof fn lemma_cell(b: BoardView, c: Coordinates, rest: Seq<char>)
    ensures
        cell_at_front(cell(b, c) + rest) == Some(shown_cell(b, c)),
        cell(b, c).len() == cell_width(shown_cell(b, c)),
        1 <= cell(b, c).len() <= 2,
        no_breaks(cell(b, c)),
{
    let text = cell(b, c);
    let whole = text + rest;
    if text.len() == 2 {
        assert(whole[1] == text[1]);
    }
}

/// The cells of a rank hold no line break and end with the edge of the
/// board.
pub proof fn lemma_cells(b: BoardView, rank: Rank, file: int)
    requires
        0 <= file <= 8,
    ensures
        no_breaks(cells_from(b, rank, file)),
        cells_from(b, rank, file).len() >= 2,
        cells_from(b, rank, file).last() == '|',
    decreases 8 - file,
{
    if file < 8 {
        lemma_cells(b, rank, file + 1);
        lemma_cell(b, Coordinates::at(file, rank.ordinal()), Seq::empty());
    }
}

/// A rank line is solid and holds no line break.
pub proof fn lemma_rank_line(b: BoardView, rank: Rank)
    ensures
        solid(rank_line(b, rank)),
        no_breaks(rank_line(b, rank)),
        rank_line(b, rank).len() >= 5,
        rank_line(b, rank)[0] == rank.label(),
        rank_line(b, rank)[1] == ' ',
        rank_line(b, rank)[2] == '|',
        rank_line(b, rank).skip(3) == cells_from(b, rank, 0),
{
    lemma_cells(b, rank, 0);
}

/// The place of a square in the order in which a diagram is read: the
/// eighth rank first, and each rank from the a-file on.
pub open spec fn read_order(c: Coordinates) -> int {
    (7 - c.rank.ordinal()) * 8 + c.file.ordinal()
}

/// The board that has been read when the first `count` cells of a
/// board's diagram are read, after Black's border: those cells' squares as
/// the diagram shows them, the others empty.
pub open spec fn partly_read(b: BoardView, count: int) -> BoardView {
    BoardView {
        squares: Seq::new(
            64,
            |i: int|
                if read_order(Coordinates::from_flat(i)) < count {
                    shown(b).squares[i]
                } else {
                    Square::Empty
                },
        ),
        en_passant: match b.en_passant {
            Some(c) => if read_order(c) < count {
                Some(c)
            } else {
                None
            },
            None => None,
        },
        white_king_side: false,
        white_queen_side: false,
        black_king_side: b.black_king_side,
        black_queen_side: b.black_queen_side,
    }
}

/// Reading one more cell of a board's diagram.
pub proof fn lemma_read_cell(b: BoardView, c: Coordinates)
    requires
        b.wf(),
    ensures
        with_cell(partly_read(b, read_order(c)), c, shown_cell(b, c)) == partly_read(
            b,
            read_order(c) + 1,
        ),
{
    let count = read_order(c);
    let before = partly_read(b, count);
    let after = with_cell(before, c, shown_cell(b, c));
    let goal = partly_read(b, count + 1);
    c.lemma_flat();
    assert forall|i: int| 0 <= i < 64 implies after.squares[i] == goal.squares[i] by {
        let other = Coordinates::from_flat(i);
        Coordinates::lemma_from_flat(i);
        other.lemma_flat();
        if i != c.flat() {
            assert(read_order(other) != count);
        }
    }
    assert(after.squares =~= goal.squares);
    if let Some(target) = b.en_passant {
        target.lemma_flat();
        if target != c {
            assert(read_order(target) != count);
        }
    }
}

/// Reading the cells of a rank from a file on, out of the text that the
/// diagram has for them, gives the board read so far with those cells, and
/// leaves the edge of the board.
pub proof fn lemma_read_cells(b: BoardView, rank: Rank, file: int)
    requires
        b.wf(),
        0 <= file <= 8,
    ensures
        with_cells(
            partly_read(b, (7 - rank.ordinal()) * 8 + file),
            rank,
            cells_from(b, rank, file),
            file,
        ) == Ok::<(BoardView, Seq<char>), ParseBoardError>(
            (partly_read(b, (7 - rank.ordinal()) * 8 + 8), seq![' ', '|']),
        ),
    decreases 8 - file,
{
    if file < 8 {
        let c = Coordinates::at(file, rank.ordinal());
        rank.lemma_ordinal();
        Coordinates::lemma_at(file, rank.ordinal());
        let text = cells_from(b, rank, file);
        let rest = cells_from(b, rank, file + 1);
        lemma_cell(b, c, rest);
        assert(text.skip(1 + cell_width(shown_cell(b, c))) =~= rest);
        lemma_read_cell(b, c);
        lemma_read_cells(b, rank, file + 1);
    }
}

/// Reading a rank out of its line of the diagram.
pub proof fn lemma_read_rank(b: BoardView, rank: Rank)
    requires
        b.wf(),
    ensures
        with_rank(partly_read(b, (7 - rank.ordinal()) * 8), rank, rank_line(b, rank)) == Ok::<
            BoardView,
            ParseBoardError,
        >(partly_read(b, (7 - rank.ordinal()) * 8 + 8)),
{
    lemma_rank_line(b, rank);
    lemma_trimmed_solid(rank_line(b, rank));
    lemma_read_cells(b, rank, 0);
}

/// Reading the first rank lines of a board's diagram.
pub proof fn lemma_read_ranks(b: BoardView, count: nat)
    requires
        b.wf(),
        count <= 8,
    ensures
        with_ranks(partly_read(b, 0), diagram_lines(b), count) == Ok::<
            BoardView,
            ParseBoardError,
        >(partly_read(b, 8 * (count as int))),
    decreases count,
{
    if count > 0 {
        lemma_read_ranks(b, (count - 1) as nat);
        let rank = Rank::from_ordinal(8 - count);
        lemma_read_rank(b, rank);
    }
}

/// The lines of a board's diagram hold no line break.
pub proof fn lemma_diagram_lines(b: BoardView)
    ensures
        diagram_lines(b).len() == 11,
        forall|i: int| 0 <= i < 11 ==> no_breaks(#[trigger] diagram_lines(b)[i]),
{
    let lines = diagram_lines(b);
    lemma_border(b.black_queen_side, b.black_king_side);
    lemma_border(b.white_queen_side, b.white_king_side);
    lemma_rank_line(b, Rank::R1);
    lemma_rank_line(b, Rank::R2);
    lemma_rank_line(b, Rank::R3);
    lemma_rank_line(b, Rank::R4);
    lemma_rank_line(b, Rank::R5);
    lemma_rank_line(b, Rank::R6);
    lemma_rank_line(b, Rank::R7);
    lemma_rank_line(b, Rank::R8);
    assert(no_breaks(lines[9])) by {
        let line = indent() + border(b.white_queen_side, b.white_king_side);
        assert forall|i: int| 0 <= i < line.len() implies line[i] != '\n' by {
            if i >= 2 {
                assert(line[i] == border(b.white_queen_side, b.white_king_side)[i - 2]);
            }
        }
    }
}

/// Up to white space around it, a board's diagram is its eleven lines.
pub proof fn lemma_diagram_trimmed(b: BoardView)
    ensures
        trimmed(diagram(b)) == joined(diagram_lines(b)),
        lines_of(trimmed(diagram(b))) == diagram_lines(b),
{
    let lines = diagram_lines(b);
    lemma_diagram_lines(b);
    lemma_border(b.black_queen_side, b.black_king_side);
    lemma_joined_ends(lines);
    lemma_trimmed(indent(), joined(lines), seq!['\n']);
    lemma_lines_joined(lines);
}

/// Reading a board's diagram gives what the diagram shows of the board.
pub proof fn lemma_parse_diagram(b: BoardView)
    requires
        b.wf(),
    ensures
        parsed(diagram(b)) == Ok::<BoardView, ParseBoardError>(shown(b)),
{
    let lines = diagram_lines(b);
    lemma_diagram_trimmed(b);
    lemma_border(b.black_queen_side, b.black_king_side);
    lemma_border(b.white_queen_side, b.white_king_side);
    lemma_trimmed_solid(lines[0]);
    let topped = BoardView::empty().with_castling(
        Color::Black,
        CastlingSide::Queen,
        b.black_queen_side,
    ).with_castling(Color::Black, CastlingSide::King, b.black_king_side);
    assert(topped.squares =~= partly_read(b, 0).squares);
    lemma_read_ranks(b, 8);
    let filled = partly_read(b, 64);
    lemma_trimmed(
        indent(),
        border(b.white_queen_side, b.white_king_side),
        Seq::empty(),
    );
    let read = filled.with_castling(
        Color::White,
        CastlingSide::Queen,
        b.white_queen_side,
    ).with_castling(Color::White, CastlingSide::King, b.white_king_side);
    assert(read.squares =~= shown(b).squares) by {
        assert forall|i: int| 0 <= i < 64 implies read.squares[i] == shown(b).squares[i] by {
            Coordinates::from_flat(i).lemma_flat();
        }
        if let Some(target) = b.en_passant {
            target.lemma_flat();
        }
    }
    if let Some(target) = b.en_passant {
        target.lemma_flat();
    }
}

/// What a diagram shows of a board has the same diagram as the board.
pub proof fn lemma_shown_diagram(b: BoardView)
    requires
        b.wf(),
    ensures
        diagram(shown(b)) == diagram(b),
        shown(b).wf(),
{
    assert forall|rank: Rank| #[trigger] rank_line(shown(b), rank) == rank_line(b, rank) by {
        lemma_shown_cells(b, rank, 0);
    }
}

/// What a diagram shows of a board has the same cells as the board.
pub proof fn lemma_shown_cells(b: BoardView, rank: Rank, file: int)
    requires
        b.wf(),
        0 <= file <= 8,
    ensures
        cells_from(shown(b), rank, file) == cells_from(b, rank, file),
    decreases 8 - file,
{
    if file < 8 {
        lemma_shown_cells(b, rank, file + 1);
        let c = Coordinates::at(file, rank.ordinal());
        rank.lemma_ordinal();
        Coordinates::lemma_at(file, rank.ordinal());
        c.lemma_flat();
        if let Some(target) = b.en_passant {
            target.lemma_flat();
        }
    }
}

/// Whether a text is a well-formed board diagram: white space around it
/// aside, it is the diagram of some board.
pub open spec fn is_diagram(text: Seq<char>) -> bool {
    exists|b: BoardView| b.wf() && trimmed(text) == #[trigger] trimmed(diagram(b))
}

/// Reading a well-formed board diagram and drawing the board that was
/// read gives the diagram back, white space around it aside.
pub proof fn lemma_round_trip(text: Seq<char>)
    requires
        is_diagram(text),
    ensures
        parsed(text) is Ok,
        trimmed(diagram(parsed(text)->Ok_0)) == trimmed(text),
{
    let b = choose|b: BoardView| b.wf() && trimmed(text) == #[trigger] trimmed(diagram(b));
    lemma_parse_diagram(b);
    lemma_shown_diagram(b);
}

/// Drawing a board and reading the diagram gives the board back, but for
/// what stood on the en-passant target. A board whose en-passant target
/// is empty, as it is in play, comes back whole.
pub proof fn lemma_draw_and_read(b: BoardView)
    requires
        b.wf(),
    ensures
        parsed(diagram(b)) == Ok::<BoardView, ParseBoardError>(shown(b)),
        (b.en_passant matches Some(c) ==> b.at(c) == Square::Empty) ==> parsed(diagram(b)) == Ok::<
            BoardView,
            ParseBoardError,
        >(b),
{
    lemma_parse_diagram(b);
    if let Some(c) = b.en_passant {
        if b.at(c) == Square::Empty {
            c.lemma_flat();
            assert(shown(b).squares =~= b.squares);
        }
    }
}

} // verus!

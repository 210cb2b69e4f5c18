use vstd::prelude::*;
use vstd::string::*;
use crate::board::board::{back_rank, Board, BoardView, CastlingSide};
use crate::board::color::Color;
use crate::board::coordinates::{Coordinates, File, Rank};

verus! {

/// The character that shows a castling right in a border: `v` where the
/// side may castle, `-` where it may not.
pub open spec fn castling_mark(allowed: bool) -> char {
    if allowed {
        'v'
    } else {
        '-'
    }
}

/// A run of dashes.
pub open spec fn dashes(count: nat) -> Seq<char> {
    Seq::new(count, |i: int| '-')
}

/// A border line of the diagram: it carries a side's castling rights, the
/// queen's wing on the left and the king's wing on the right.
pub open spec fn border(queen_side: bool, king_side: bool) -> Seq<char> {
    seq!['+', '-', castling_mark(queen_side)] + dashes(13) + seq![
        castling_mark(king_side),
        '-',
        '+',
    ]
}

/// What the diagram shows for a square: a star on the en-passant target,
/// whatever stands there, and otherwise the glyph of the square.
pub open spec fn cell(b: BoardView, c: Coordinates) -> Seq<char> {
    if b.en_passant == Some(c) {
        seq!['*']
    } else {
        b.at(c).glyph()
    }
}

/// The cells of a rank from the given file on, each behind a blank, and
/// the right edge of the board behind them.
pub open spec fn cells_from(b: BoardView, rank: Rank, file: int) -> Seq<char>
    decreases 8 - file,
{
    if file >= 8 {
        seq![' ', '|']
    } else {
        seq![' '] + cell(b, Coordinates::at(file, rank.ordinal())) + cells_from(
            b,
            rank,
            file + 1,
        )
    }
}

/// The line of the diagram that shows a rank: its label, the left edge,
/// its eight cells and the right edge.
pub open spec fn rank_line(b: BoardView, rank: Rank) -> Seq<char> {
    seq![rank.label(), ' ', '|'] + cells_from(b, rank, 0)
}

/// The last line of the diagram: the letters of the files.
pub open spec fn file_labels() -> Seq<char> {
    seq![
        ' ',
        ' ',
        ' ',
        ' ',
        'a',
        ' ',
        'b',
        ' ',
        'c',
        ' ',
        'd',
        ' ',
        'e',
        ' ',
        'f',
        ' ',
        'g',
        ' ',
        'h',
    ]
}

/// The blanks that stand before a border, under the rank labels.
pub open spec fn indent() -> Seq<char> {
    seq![' ', ' ']
}

/// Lines put together to one text, with a line break between each two.
pub open spec fn joined(lines: Seq<Seq<char>>) -> Seq<char>
    decreases lines.len(),
{
    if lines.len() == 0 {
        Seq::empty()
    } else if lines.len() == 1 {
        lines[0]
    } else {
        joined(lines.drop_last()) + seq!['\n'] + lines.last()
    }
}

/// The eleven lines of a board's diagram, the first without its indent:
/// Black's border, the ranks from the eighth down to the first, White's
/// border and the file letters.
pub open spec fn diagram_lines(b: BoardView) -> Seq<Seq<char>> {
    seq![
        border(b.black_queen_side, b.black_king_side),
        rank_line(b, Rank::R8),
        rank_line(b, Rank::R7),
        rank_line(b, Rank::R6),
        rank_line(b, Rank::R5),
        rank_line(b, Rank::R4),
        rank_line(b, Rank::R3),
        rank_line(b, Rank::R2),
        rank_line(b, Rank::R1),
        indent() + border(b.white_queen_side, b.white_king_side),
        file_labels(),
    ]
}

/// The diagram of a board: its eleven lines behind an indent, each ended
/// by a line break.
pub open spec fn diagram(b: BoardView) -> Seq<char> {
    indent() + joined(diagram_lines(b)) + seq!['\n']
}

/// The text of a castling mark.
fn castling_marker(allowed: bool) -> (r: &'static str)
    ensures
        r@ == seq![castling_mark(allowed)],
{
    proof {
        reveal_strlit("v");
        reveal_strlit("-");
    }
    let r = if allowed {
        "v"
    } else {
        "-"
    };
    r
}

/// The text of a border line.
fn border_text(queen_side: bool, king_side: bool) -> (r: String)
    ensures
        r@ == border(queen_side, king_side),
{
    proof {
        reveal_strlit("+-");
        reveal_strlit("-------------");
        reveal_strlit("-+");
    }
    let mut s = String::from_str("+-");
    s.append(castling_marker(queen_side));
    s.append("-------------");
    s.append(castling_marker(king_side));
    s.append("-+");
    s
}

/// The text that the diagram shows for a square.
fn cell_text(board: &Board, c: Coordinates) -> (r: String)
    ensures
        r@ == cell(board@, c),
{
    if board.is_en_passant_capturable(c) {
        proof {
            reveal_strlit("*");
        }
        let s = String::from_str("*");
        s
    } else {
        board.get_square(c).to_string()
    }
}

/// The text of the line that shows a rank.
fn rank_text(board: &Board, rank: Rank) -> (r: String)
    ensures
        r@ == rank_line(board@, rank),
{
    proof {
        reveal_strlit(" |");
        reveal_strlit(" ");
    }
    let mut s = rank.to_string();
    s.append(" |");
    let mut file: u8 = 0;
    while file < 8
        invariant
            file <= 8,
            s@ + cells_from(board@, rank, file as int) == rank_line(board@, rank),
        decreases 8 - file,
    {
        let c = Coordinates::new(File::new_from_index(file).unwrap(), rank);
        proof {
            rank.lemma_ordinal();
        }
        s.append(" ");
        let text = cell_text(board, c);
        s.append(text.as_str());
        proof {
            reveal_strlit(" ");
        }
        file = file + 1;
    }
    s.append(" |");
    s
}

impl Board {
    /// The diagram of the board as text.
    pub fn to_string(&self) -> (s: String)
        ensures
            s@ == diagram(self@),
    {
        proof {
            reveal_strlit("  ");
            reveal_strlit("\n");
            reveal_strlit("    a b c d e f g h");
        }
        let ghost lines = diagram_lines(self@);
        let mut s = String::from_str("  ");
        let top = border_text(
            self.is_castling_allowed(Color::Black, CastlingSide::Queen),
            self.is_castling_allowed(Color::Black, CastlingSide::King),
        );
        s.append(top.as_str());
        let mut left: u8 = 8;
        while left > 0
            invariant
                left <= 8,
                lines == diagram_lines(self@),
                s@ == indent() + joined(lines.take(9 - left)),
            decreases left,
        {
            let rank = Rank::new_from_index(left - 1).unwrap();
            let line = rank_text(self, rank);
            s.append("\n");
            s.append(line.as_str());
            proof {
                reveal_strlit("\n");
                let next = lines.take(10 - left);
                assert(next.drop_last() =~= lines.take(9 - left));
            }
            left = left - 1;
        }
        let bottom = border_text(
            self.is_castling_allowed(Color::White, CastlingSide::Queen),
            self.is_castling_allowed(Color::White, CastlingSide::King),
        );
        s.append("\n");
        s.append("  ");
        s.append(bottom.as_str());
        proof {
            let next = lines.take(10);
            assert(next.drop_last() =~= lines.take(9));
            assert(s@ =~= indent() + joined(next));
        }
        s.append("\n");
        s.append("    a b c d e f g h");
        s.append("\n");
        s
    }
}

} // verus!

use vstd::prelude::*;
use vstd::slice::slice_subrange;
use vstd::string::*;
use crate::board::board::{Board, BoardView, CastlingSide};
use crate::board::color::Color;
use crate::board::coordinates::{Coordinates, File, Rank};
use crate::board::diagram::border;
use crate::board::kind::Kind;
use crate::board::piece::Piece;
use crate::board::square::Square;

verus! {

/// Why a text is not a board diagram.
#[derive(Debug, Copy, Clone, PartialEq, Eq, Hash, Structural)]
pub enum ParseBoardError {
    /// The text does not have eleven lines.
    LineCount,
    /// The first or the tenth line is not a border with its castling marks.
    Border,
    /// A rank line does not begin with the number of its rank.
    RankLabel,
    /// A rank line lacks an edge of the board or the blank before a cell,
    /// or goes on behind the right edge.
    Frame,
    /// A cell holds neither a piece, nor a blank, nor a star.
    Glyph,
}

impl ParseBoardError {
    /// The words that describe the error.
    pub open spec fn description(self) -> Seq<char> {
        match self {
            ParseBoardError::LineCount => "Invalid number of lines for board"@,
            ParseBoardError::Border => "Expect a border: +-, a castling mark, dashes, a castling mark, -+"@,
            ParseBoardError::RankLabel => "Expect the number of the rank"@,
            ParseBoardError::Frame => "Expect an edge of the board or a blank before a cell"@,
            ParseBoardError::Glyph => "Expect a piece, a blank or a star"@,
        }
    }

    /// The words that describe the error, as text.
    pub fn to_string(&self) -> (s: String)
        ensures
            s@ == self.description(),
    {
        match self {
            ParseBoardError::LineCount => String::from_str("Invalid number of lines for board"),
            ParseBoardError::Border => String::from_str(
                "Expect a border: +-, a castling mark, dashes, a castling mark, -+",
            ),
            ParseBoardError::RankLabel => String::from_str("Expect the number of the rank"),
            ParseBoardError::Frame => String::from_str(
                "Expect an edge of the board or a blank before a cell",
            ),
            ParseBoardError::Glyph => String::from_str("Expect a piece, a blank or a star"),
        }
    }
}

/// What a cell of a diagram shows.
#[derive(Debug, Copy, Clone, PartialEq, Eq, Hash, Structural)]
pub enum Cell {
    /// A piece.
    Piece(Piece),
    /// An empty square.
    Blank,
    /// The mark of the en-passant target.
    Star,
}

/// Whether a character is white space: one of the characters that
/// Unicode gives the property White_Space.
pub open spec fn is_space(c: char) -> bool {
    let code = c as u32;
    ||| 0x09 <= code <= 0x0d
    ||| code == 0x20
    ||| code == 0x85
    ||| code == 0xa0
    ||| code == 0x1680
    ||| 0x2000 <= code <= 0x200a
    ||| code == 0x2028
    ||| code == 0x2029
    ||| code == 0x202f
    ||| code == 0x205f
    ||| code == 0x3000
}

/// A text without the white space at its start.
pub open spec fn trim_start(s: Seq<char>) -> Seq<char>
    decreases s.len(),
{
    if s.len() > 0 && is_space(s[0]) {
        trim_start(s.drop_first())
    } else {
        s
    }
}

/// A text without the white space at its end.
pub open spec fn trim_end(s: Seq<char>) -> Seq<char>
    decreases s.len(),
{
    if s.len() > 0 && is_space(s.last()) {
        trim_end(s.drop_last())
    } else {
        s
    }
}

/// A text without the white space around it.
pub open spec fn trimmed(s: Seq<char>) -> Seq<char> {
    trim_end(trim_start(s))
}

/// The lines of a text: the stretches between its line breaks. A text
/// with n line breaks has n + 1 lines, some of which may be empty.
pub open spec fn lines_of(s: Seq<char>) -> Seq<Seq<char>>
    decreases s.len(),
{
    if s.len() == 0 {
        seq![Seq::empty()]
    } else {
        let before = lines_of(s.drop_last());
        if s.last() == '\n' {
            before.push(Seq::empty())
        } else {
            before.drop_last().push(before.last().push(s.last()))
        }
    }
}

/// The castling rights that a border line shows, the queen's wing first,
/// if the text is a border line.
pub open spec fn border_rights(s: Seq<char>) -> Option<(bool, bool)> {
    if s == border(false, false) {
        Some((false, false))
    } else if s == border(false, true) {
        Some((false, true))
    } else if s == border(true, false) {
        Some((true, false))
    } else if s == border(true, true) {
        Some((true, true))
    } else {
        None
    }
}

/// The board with a side's castling rights as a line shows them, or the
/// error that the line is no border.
pub open spec fn with_border(b: BoardView, color: Color, line: Seq<char>) -> Result<
    BoardView,
    ParseBoardError,
> {
    match border_rights(trimmed(line)) {
        Some((queen_side, king_side)) => Ok(
            b.with_castling(color, CastlingSide::Queen, queen_side).with_castling(
                color,
                CastlingSide::King,
                king_side,
            ),
        ),
        None => Err(ParseBoardError::Border),
    }
}

/// The piece that a character draws. For the black pawn this is the first
/// of its two characters.
pub open spec fn piece_of(c: char) -> Option<Piece> {
    if c == '\u{2656}' {
        Some(Piece(Color::White, Kind::Rook))
    } else if c == '\u{2658}' {
        Some(Piece(Color::White, Kind::Knight))
    } else if c == '\u{2657}' {
        Some(Piece(Color::White, Kind::Bishop))
    } else if c == '\u{2655}' {
        Some(Piece(Color::White, Kind::Queen))
    } else if c == '\u{2654}' {
        Some(Piece(Color::White, Kind::King))
    } else if c == '\u{2659}' {
        Some(Piece(Color::White, Kind::Pawn))
    } else if c == '\u{265c}' {
        Some(Piece(Color::Black, Kind::Rook))
    } else if c == '\u{265e}' {
        Some(Piece(Color::Black, Kind::Knight))
    } else if c == '\u{265d}' {
        Some(Piece(Color::Black, Kind::Bishop))
    } else if c == '\u{265b}' {
        Some(Piece(Color::Black, Kind::Queen))
    } else if c == '\u{265a}' {
        Some(Piece(Color::Black, Kind::King))
    } else if c == '\u{265f}' {
        Some(Piece(Color::Black, Kind::Pawn))
    } else {
        None
    }
}

/// What the cell at the start of a text shows, if the text starts with a
/// cell: a blank, a star, or the glyph of a piece.
pub open spec fn cell_at_front(s: Seq<char>) -> Option<Cell> {
    if s.len() == 0 {
        None
    } else if s[0] == ' ' {
        Some(Cell::Blank)
    } else if s[0] == '*' {
        Some(Cell::Star)
    } else {
        match piece_of(s[0]) {
            Some(piece) => {
                if piece.glyph().len() == 1 || (s.len() > 1 && s[1] == piece.glyph()[1]) {
                    Some(Cell::Piece(piece))
                } else {
                    None
                }
            },
            None => None,
        }
    }
}

/// The number of characters that a cell takes.
pub open spec fn cell_width(cell: Cell) -> int {
    match cell {
        Cell::Piece(piece) => piece.glyph().len() as int,
        _ => 1,
    }
}

/// The board with what a cell shows put on a square: a piece, nothing, or
/// the en-passant target, which leaves the square as it is.
pub open spec fn with_cell(b: BoardView, c: Coordinates, cell: Cell) -> BoardView {
    match cell {
        Cell::Piece(piece) => b.put(c, Square::Occupied(piece)),
        Cell::Blank => b.put(c, Square::Empty),
        Cell::Star => b.with_en_passant(Some(c)),
    }
}

/// The board with the cells of a rank from the given file on read from a
/// text, each behind a blank, and what is left of the text behind them; or
/// the first error met.
pub open spec fn with_cells(b: BoardView, rank: Rank, rest: Seq<char>, file: int) -> Result<
    (BoardView, Seq<char>),
    ParseBoardError,
>
    decreases 8 - file,
{
    if file >= 8 {
        Ok((b, rest))
    } else if rest.len() == 0 || rest[0] != ' ' {
        Err(ParseBoardError::Frame)
    } else {
        match cell_at_front(rest.drop_first()) {
            Some(cell) => with_cells(
                with_cell(b, Coordinates::at(file, rank.ordinal()), cell),
                rank,
                rest.skip(1 + cell_width(cell)),
                file + 1,
            ),
            None => Err(ParseBoardError::Glyph),
        }
    }
}

/// The board with a rank read from a line: the rank's number, the left
/// edge, eight cells, the right edge, and nothing more, white space around
/// the line aside. Or the first error met.
pub open spec fn with_rank(b: BoardView, rank: Rank, line: Seq<char>) -> Result<
    BoardView,
    ParseBoardError,
> {
    let s = trimmed(line);
    if s.len() == 0 || s[0] != rank.label() {
        Err(ParseBoardError::RankLabel)
    } else if s.len() < 3 || s[1] != ' ' || s[2] != '|' {
        Err(ParseBoardError::Frame)
    } else {
        match with_cells(b, rank, s.skip(3), 0) {
            Ok((filled, rest)) => {
                if rest == seq![' ', '|'] {
                    Ok(filled)
                } else {
                    Err(ParseBoardError::Frame)
                }
            },
            Err(e) => Err(e),
        }
    }
}

/// The board with the first `count` rank lines of a diagram read: the
/// eighth rank from the second line, and so on downwards. Or the first
/// error met.
pub open spec fn with_ranks(b: BoardView, lines: Seq<Seq<char>>, count: nat) -> Result<
    BoardView,
    ParseBoardError,
>
    decreases count,
{
    if count == 0 {
        Ok(b)
    } else {
        match with_ranks(b, lines, (count - 1) as nat) {
            Ok(above) => with_rank(above, Rank::from_ordinal(8 - count), lines[count as int]),
            Err(e) => Err(e),
        }
    }
}

/// The board that a text shows, or why the text is no board diagram.
///
/// White space around the text and around each line does not count. The
/// text has eleven lines: Black's border, the ranks from the eighth to the
/// first, White's border, and a last line that is not read.
pub open spec fn parsed(text: Seq<char>) -> Result<BoardView, ParseBoardError> {
    let lines = lines_of(trimmed(text));
    if lines.len() != 11 {
        Err(ParseBoardError::LineCount)
    } else {
        match with_border(BoardView::empty(), Color::Black, lines[0]) {
            Ok(topped) => match with_ranks(topped, lines, 8) {
                Ok(filled) => with_border(filled, Color::White, lines[9]),
                Err(e) => Err(e),
            },
            Err(e) => Err(e),
        }
    }
}

/// Whether a character is white space.
fn is_whitespace(c: char) -> (r: bool)
    ensures
        r == is_space(c),
{
    let code = c as u32;
    (0x09 <= code && code <= 0x0d) || code == 0x20 || code == 0x85 || code == 0xa0 || code
        == 0x1680 || (0x2000 <= code && code <= 0x200a) || code == 0x2028 || code == 0x2029
        || code == 0x202f || code == 0x205f || code == 0x3000
}

/// The characters of a text.
fn chars_of(text: &str) -> (r: Vec<char>)
    ensures
        r@ == text@,
{
    let mut chars: Vec<char> = Vec::new();
    for c in it: text.chars()
        invariant
            chars@ == it.seq().take(it.index() as int),
            it.seq() == text@,
    {
        chars.push(c);
    }
    chars
}

/// The part of a text that is left without the white space around it.
fn trim(s: &[char]) -> (r: &[char])
    ensures
        r@ == trimmed(s@),
{
    let mut start: usize = 0;
    assert(s@.skip(0) =~= s@);
    while start < s.len() && is_whitespace(s[start])
        invariant
            start <= s.len(),
            trim_start(s@) == trim_start(s@.skip(start as int)),
        decreases s.len() - start,
    {
        assert(s@.skip(start as int).drop_first() =~= s@.skip(start + 1));
        start = start + 1;
    }
    let mut end: usize = s.len();
    while end > start && is_whitespace(s[end - 1])
        invariant
            start <= end <= s.len(),
            trim_start(s@) == s@.skip(start as int),
            trimmed(s@) == trim_end(s@.subrange(start as int, end as int)),
        decreases end,
    {
        assert(s@.subrange(start as int, end as int).drop_last() =~= s@.subrange(
            start as int,
            end - 1,
        ));
        end = end - 1;
    }
    slice_subrange(s, start, end)
}

/// The texts of a list of lines.
pub open spec fn line_texts(lines: Seq<Vec<char>>) -> Seq<Seq<char>> {
    lines.map_values(|line: Vec<char>| line@)
}

/// The lines of a text.
fn split_lines(s: &[char]) -> (r: Vec<Vec<char>>)
    ensures
        line_texts(r@) == lines_of(s@),
{
    let mut lines: Vec<Vec<char>> = Vec::new();
    let mut current: Vec<char> = Vec::new();
    let mut i: usize = 0;
    while i < s.len()
        invariant
            i <= s.len(),
            line_texts(lines@).push(current@) == lines_of(s@.take(i as int)),
        decreases s.len() - i,
    {
        let c = s[i];
        let ghost head = s@.take(i + 1);
        assert(head.drop_last() =~= s@.take(i as int));
        if c == '\n' {
            lines.push(current);
            current = Vec::new();
        } else {
            current.push(c);
        }
        i = i + 1;
    }
    assert(s@.take(i as int) =~= s@);
    lines.push(current);
    lines
}

/// The castling right that a mark shows, if the character is a mark.
fn read_mark(c: char) -> (r: Option<bool>)
    ensures
        r == (if c == 'v' {
            Some(true)
        } else if c == '-' {
            Some(false)
        } else {
            None
        }),
{
    if c == 'v' {
        Some(true)
    } else if c == '-' {
        Some(false)
    } else {
        None
    }
}

/// Reads a side's castling rights from a border line.
fn parse_header_or_footer(board: &mut Board, color: Color, line: &[char]) -> (r: Result<
    (),
    ParseBoardError,
>)
    ensures
        match r {
            Ok(_) => with_border(old(board)@, color, line@) == Ok::<BoardView, ParseBoardError>(
                final(board)@,
            ),
            Err(e) => with_border(old(board)@, color, line@) == Err::<BoardView, ParseBoardError>(e),
        },
{
    let s = trim(line);
    if s.len() != 19 {
        return Err(ParseBoardError::Border);
    }
    let queen_side = read_mark(s[2]);
    let king_side = read_mark(s[16]);
    let mut framed = s[0] == '+' && s[1] == '-' && s[17] == '-' && s[18] == '+';
    let mut i: usize = 3;
    while i < 16
        invariant
            3 <= i <= 16,
            s@.len() == 19,
            framed == (s@[0] == '+' && s@[1] == '-' && s@[17] == '-' && s@[18] == '+' && forall|
                k: int,
            |
                3 <= k < i ==> s@[k] == '-'),
        decreases 16 - i,
    {
        if s[i] != '-' {
            framed = false;
        }
        i = i + 1;
    }
    match (framed, queen_side, king_side) {
        (true, Some(queen), Some(king)) => {
            assert(s@ =~= border(queen, king));
            board.set_castling_allowed(color, CastlingSide::Queen, queen);
            board.set_castling_allowed(color, CastlingSide::King, king);
            Ok(())
        },
        _ => {
            Err(ParseBoardError::Border)
        },
    }
}

/// Reads Black's castling rights from the first line of a diagram.
fn parse_header(board: &mut Board, line: &[char]) -> (r: Result<(), ParseBoardError>)
    ensures
        match r {
            Ok(_) => with_border(old(board)@, Color::Black, line@) == Ok::<
                BoardView,
                ParseBoardError,
            >(final(board)@),
            Err(e) => with_border(old(board)@, Color::Black, line@) == Err::<
                BoardView,
                ParseBoardError,
            >(e),
        },
{
    parse_header_or_footer(board, Color::Black, line)
}

/// Reads White's castling rights from the tenth line of a diagram.
fn parse_footer(board: &mut Board, line: &[char]) -> (r: Result<(), ParseBoardError>)
    ensures
        match r {
            Ok(_) => with_border(old(board)@, Color::White, line@) == Ok::<
                BoardView,
                ParseBoardError,
            >(final(board)@),
            Err(e) => with_border(old(board)@, Color::White, line@) == Err::<
                BoardView,
                ParseBoardError,
            >(e),
        },
{
    parse_header_or_footer(board, Color::White, line)
}

/// The piece that a character draws.
fn read_piece(c: char) -> (r: Option<Piece>)
    ensures
        r == piece_of(c),
{
    if c == '\u{2656}' {
        Some(Piece(Color::White, Kind::Rook))
    } else if c == '\u{2658}' {
        Some(Piece(Color::White, Kind::Knight))
    } else if c == '\u{2657}' {
        Some(Piece(Color::White, Kind::Bishop))
    } else if c == '\u{2655}' {
        Some(Piece(Color::White, Kind::Queen))
    } else if c == '\u{2654}' {
        Some(Piece(Color::White, Kind::King))
    } else if c == '\u{2659}' {
        Some(Piece(Color::White, Kind::Pawn))
    } else if c == '\u{265c}' {
        Some(Piece(Color::Black, Kind::Rook))
    } else if c == '\u{265e}' {
        Some(Piece(Color::Black, Kind::Knight))
    } else if c == '\u{265d}' {
        Some(Piece(Color::Black, Kind::Bishop))
    } else if c == '\u{265b}' {
        Some(Piece(Color::Black, Kind::Queen))
    } else if c == '\u{265a}' {
        Some(Piece(Color::Black, Kind::King))
    } else if c == '\u{265f}' {
        Some(Piece(Color::Black, Kind::Pawn))
    } else {
        None
    }
}

/// Reads the cell that starts at a place of a line, and tells how many
/// characters it takes.
fn read_cell(s: &[char], at: usize) -> (r: Option<(Cell, usize)>)
    requires
        at <= s@.len(),
    ensures
        match r {
            Some((cell, width)) => cell_at_front(s@.skip(at as int)) == Some(cell) && width
                == cell_width(cell) && at + width <= s@.len(),
            None => cell_at_front(s@.skip(at as int)) is None,
        },
{
    if at >= s.len() {
        return None;
    }
    let c = s[at];
    if c == ' ' {
        Some((Cell::Blank, 1))
    } else if c == '*' {
        Some((Cell::Star, 1))
    } else {
        match read_piece(c) {
            Some(piece) => {
                if c == '\u{265f}' {
                    if at + 1 < s.len() && s[at + 1] == '\u{fe0e}' {
                        Some((Cell::Piece(piece), 2))
                    } else {
                        None
                    }
                } else {
                    Some((Cell::Piece(piece), 1))
                }
            },
            None => None,
        }
    }
}

/// The digit that labels a rank.
fn rank_label(rank: Rank) -> (r: char)
    ensures
        r == rank.label(),
{
    match rank {
        Rank::R1 => '1',
        Rank::R2 => '2',
        Rank::R3 => '3',
        Rank::R4 => '4',
        Rank::R5 => '5',
        Rank::R6 => '6',
        Rank::R7 => '7',
        Rank::R8 => '8',
    }
}

/// Puts what a cell shows on a square of the board.
fn put_cell(board: &mut Board, c: Coordinates, cell: Cell)
    ensures
        final(board)@ == with_cell(old(board)@, c, cell),
{
    match cell {
        Cell::Piece(piece) => board.set_square(c, Square::Occupied(piece)),
        Cell::Blank => board.set_square(c, Square::Empty),
        Cell::Star => board.set_en_passant_capturable(Some(c)),
    }
}

/// Reads a rank of the board from a line of a diagram.
fn parse_line(board: &mut Board, rank: Rank, line: &[char]) -> (r: Result<(), ParseBoardError>)
    ensures
        match r {
            Ok(_) => with_rank(old(board)@, rank, line@) == Ok::<BoardView, ParseBoardError>(
                final(board)@,
            ),
            Err(e) => with_rank(old(board)@, rank, line@) == Err::<BoardView, ParseBoardError>(e),
        },
{
    let s = trim(line);
    if s.len() == 0 || s[0] != rank_label(rank) {
        return Err(ParseBoardError::RankLabel);
    }
    if s.len() < 3 || s[1] != ' ' || s[2] != '|' {
        return Err(ParseBoardError::Frame);
    }
    let mut at: usize = 3;
    let mut file: u8 = 0;
    while file < 8
        invariant
            file <= 8,
            3 <= at <= s@.len(),
            s@ == trimmed(line@),
            s@[0] == rank.label() && s@[1] == ' ' && s@[2] == '|',
            with_cells(old(board)@, rank, s@.skip(3), 0) == with_cells(
                board@,
                rank,
                s@.skip(at as int),
                file as int,
            ),
        decreases 8 - file,
    {
        let ghost rest = s@.skip(at as int);
        if at >= s.len() || s[at] != ' ' {
            return Err(ParseBoardError::Frame);
        }
        match read_cell(s, at + 1) {
            Some((cell, width)) => {
                let c = Coordinates::new(File::new_from_index(file).unwrap(), rank);
                proof {
                    rank.lemma_ordinal();
                    assert(rest.skip(1 + cell_width(cell)) =~= s@.skip(at + 1 + width));
                }
                put_cell(board, c, cell);
                at = at + 1 + width;
            },
            None => {
                return Err(ParseBoardError::Glyph);
            },
        }
        file = file + 1;
    }
    let ghost rest = s@.skip(at as int);
    if s.len() - at == 2 && s[at] == ' ' && s[at + 1] == '|' {
        assert(rest =~= seq![' ', '|']);
        Ok(())
    } else {
        Err(ParseBoardError::Frame)
    }
}

/// Reads a board from its diagram.
///
/// The diagram has eleven lines: Black's border, the eight ranks from the
/// eighth down, White's border and a line of file letters, which is not
/// read. A border is `+-`, a castling mark for the queen's wing, thirteen
/// dashes, a castling mark for the king's wing and `-+`; a castling mark is
/// `v` for a right that stands and `-` for one that is gone. A rank line is
/// the rank's number, ` |`, eight cells each behind a blank, and ` |`. A
/// cell is the glyph of a piece, a blank for an empty square, or a star
/// for the en-passant target. White space around the text and around each
/// line is passed over.
pub fn parse_board(input: &str) -> (r: Result<Board, ParseBoardError>)
    ensures
        match r {
            Ok(board) => parsed(input@) == Ok::<BoardView, ParseBoardError>(board@),
            Err(e) => parsed(input@) == Err::<BoardView, ParseBoardError>(e),
        },
{
    let chars = chars_of(input);
    let text = trim(chars.as_slice());
    let lines = split_lines(text);
    if lines.len() != 11 {
        return Err(ParseBoardError::LineCount);
    }
    let ghost texts = line_texts(lines@);
    let mut board = Board::new();
    match parse_header(&mut board, lines[0].as_slice()) {
        Ok(_) => {},
        Err(e) => {
            return Err(e);
        },
    }
    let ghost topped = board@;
    let mut count: usize = 0;
    while count < 8
        invariant
            count <= 8,
            lines@.len() == 11,
            texts == line_texts(lines@),
            texts == lines_of(trimmed(input@)),
            with_border(BoardView::empty(), Color::Black, texts[0]) == Ok::<
                BoardView,
                ParseBoardError,
            >(topped),
            with_ranks(topped, texts, count as nat) == Ok::<BoardView, ParseBoardError>(
                board@,
            ),
        decreases 8 - count,
    {
        let rank = Rank::new_from_index((7 - count) as u8).unwrap();
        match parse_line(&mut board, rank, lines[count + 1].as_slice()) {
            Ok(_) => {},
            Err(e) => {
                proof {
                    lemma_ranks_fail(topped, texts, (count + 1) as nat, 8);
                }
                return Err(e);
            },
        }
        count = count + 1;
    }
    match parse_footer(&mut board, lines[9].as_slice()) {
        Ok(_) => Ok(board),
        Err(e) => Err(e),
    }
}

impl std::str::FromStr for Board {
    type Err = ParseBoardError;

    /// Reads a board from its diagram.
    fn from_str(s: &str) -> (r: Result<Board, ParseBoardError>)
        ensures
            match r {
                Ok(board) => parsed(s@) == Ok::<BoardView, ParseBoardError>(board@),
                Err(e) => parsed(s@) == Err::<BoardView, ParseBoardError>(e),
            },
    {
        parse_board(s)
    }
}

/// Once reading the rank lines has failed, reading more of them fails
/// in the same way.
proof fn lemma_ranks_fail(b: BoardView, lines: Seq<Seq<char>>, failed: nat, count: nat)
    requires
        with_ranks(b, lines, failed) is Err,
        failed <= count,
    ensures
        with_ranks(b, lines, count) == with_ranks(b, lines, failed),
    decreases count,
{
    if failed < count {
        lemma_ranks_fail(b, lines, failed, (count - 1) as nat);
    }
}

} // verus!

use vstd::prelude::*;
use vstd::string::*;
use crate::board::coordinates::{Coordinates, File, Rank};

verus! {

/// A square given by plain rank and file numbers, both counted from zero.
#[derive(Debug, Copy, Clone, PartialEq, Eq, Hash, Structural)]
pub struct Position {
    pub rank: u8,
    pub file: u8,
}

impl Position {
    /// Whether the numbers name a square of the board.
    pub open spec fn wf(self) -> bool {
        self.rank <= 7 && self.file <= 7
    }

    /// The flat index of the square: eight times the rank plus the file.
    pub open spec fn flat(self) -> int {
        self.rank * 8 + self.file
    }

    /// The square reached by moving the given number of ranks and files,
    /// if that is on the board.
    pub open spec fn shifted(self, rank: int, file: int) -> Option<Position> {
        if 0 <= self.rank + rank <= 7 && 0 <= self.file + file <= 7 {
            Some(Position { rank: (self.rank + rank) as u8, file: (self.file + file) as u8 })
        } else {
            None
        }
    }

    /// The square with the given flat index, or nothing above 63.
    pub fn new_from_index(index: usize) -> (r: Option<Position>)
        ensures
            index <= 63 ==> r == Some(
                Position { rank: (index / 8) as u8, file: (index % 8) as u8 },
            ),
            index <= 63 ==> r.unwrap().wf() && r.unwrap().flat() == index,
            index > 63 ==> r is None,
    {
        if index <= 63 {
            let index_u8 = index as u8;
            let file: u8 = index_u8 % 8;
            let rank: u8 = (index_u8 - file) / 8;
            Some(Position { rank, file })
        } else {
            None
        }
    }

    /// The square on the given rank and file, or nothing if either number
    /// is above 7.
    pub fn new(rank: u8, file: u8) -> (r: Option<Position>)
        ensures
            rank <= 7 && file <= 7 ==> r == Some(Position { rank, file }),
            rank > 7 || file > 7 ==> r is None,
    {
        Position::new_signed(rank as i16, file as i16)
    }

    /// The square on the given rank and file, or nothing if either number
    /// is not between 0 and 7.
    fn new_signed(rank: i16, file: i16) -> (r: Option<Position>)
        ensures
            0 <= rank <= 7 && 0 <= file <= 7 ==> r == Some(
                Position { rank: rank as u8, file: file as u8 },
            ),
            !(0 <= rank <= 7 && 0 <= file <= 7) ==> r is None,
    {
        if 0 <= rank && rank <= 7 && 0 <= file && file <= 7 {
            Some(Position { rank: rank as u8, file: file as u8 })
        } else {
            None
        }
    }

    /// The square reached by moving the given number of ranks and files, or
    /// nothing if that leaves the board.
    pub fn offset(&self, rank: i8, file: i8) -> (r: Option<Position>)
        ensures
            r == self.shifted(rank as int, file as int),
            r matches Some(p) ==> p.wf(),
    {
        Position::new_signed(self.rank as i16 + rank as i16, self.file as i16 + file as i16)
    }

    /// The same square with its file and rank by name.
    pub open spec fn named(self) -> Coordinates {
        Coordinates::at(self.file as int, self.rank as int)
    }

    /// The same square with its file and rank by name, or nothing if the
    /// numbers name no square.
    pub fn coordinates(&self) -> (r: Option<Coordinates>)
        ensures
            self.wf() ==> r == Some(self.named()) && r.unwrap().flat() == self.flat(),
            !self.wf() ==> r is None,
    {
        match (File::new_from_index(self.file), Rank::new_from_index(self.rank)) {
            (Some(file), Some(rank)) => Some(Coordinates::new(file, rank)),
            _ => None,
        }
    }

    /// The text that names the square, such as `e4`. The numbers must name
    /// a square.
    pub fn to_string(&self) -> (s: String)
        requires
            self.wf(),
        ensures
            s@ == self.named().name(),
    {
        self.coordinates().unwrap().to_string()
    }

    /// The flat index of the square, from 0 for a1 to 63 for h8.
    pub fn index(&self) -> (i: usize)
        ensures
            i == self.flat(),
            self.wf() ==> i <= 63,
    {
        calculate_index(self.rank, self.file)
    }
}

/// The flat index of the square on the given rank and file.
fn calculate_index(rank: u8, file: u8) -> (i: usize)
    ensures
        i == rank * 8 + file,
{
    (rank as usize) * 8 + (file as usize)
}

} // verus!

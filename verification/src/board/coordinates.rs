use vstd::prelude::*;
use vstd::string::*;

verus! {

/// A rank (row) of the board, `R1` being White's back rank.
#[derive(Debug, Copy, Clone, PartialEq, Eq, Hash, Structural)]
pub enum Rank {
    R1,
    R2,
    R3,
    R4,
    R5,
    R6,
    R7,
    R8,
}

impl Rank {
    /// The rank's number counted from zero.
    pub open spec fn ordinal(self) -> int {
        match self {
            Rank::R1 => 0,
            Rank::R2 => 1,
            Rank::R3 => 2,
            Rank::R4 => 3,
            Rank::R5 => 4,
            Rank::R6 => 5,
            Rank::R7 => 6,
            Rank::R8 => 7,
        }
    }

    /// The rank with the given number; only meaningful for 0 to 7.
    pub open spec fn from_ordinal(i: int) -> Rank {
        if i == 0 {
            Rank::R1
        } else if i == 1 {
            Rank::R2
        } else if i == 2 {
            Rank::R3
        } else if i == 3 {
            Rank::R4
        } else if i == 4 {
            Rank::R5
        } else if i == 5 {
            Rank::R6
        } else if i == 6 {
            Rank::R7
        } else {
            Rank::R8
        }
    }

    /// The digit that labels the rank in a board diagram.
    pub open spec fn label(self) -> char {
        match self {
            Rank::R1 => '1',
            Rank::R2 => '2',
            Rank::R3 => '3',
            Rank::R4 => '4',
            Rank::R5 => '5',
            Rank::R6 => '6',
            Rank::R7 => '7',
            Rank::R8 => '8',
        }
    }

    /// The rank with the given number, or nothing above 7.
    pub fn new_from_index(index: u8) -> (r: Option<Rank>)
        ensures
            index <= 7 ==> r == Some(Rank::from_ordinal(index as int)),
            index > 7 ==> r is None,
    {
        match index {
            0 => Some(Rank::R1),
            1 => Some(Rank::R2),
            2 => Some(Rank::R3),
            3 => Some(Rank::R4),
            4 => Some(Rank::R5),
            5 => Some(Rank::R6),
            6 => Some(Rank::R7),
            7 => Some(Rank::R8),
            _ => None,
        }
    }

    /// The rank's number counted from zero.
    pub fn index(&self) -> (i: u8)
        ensures
            i == self.ordinal(),
    {
        match self {
            Rank::R1 => 0,
            Rank::R2 => 1,
            Rank::R3 => 2,
            Rank::R4 => 3,
            Rank::R5 => 4,
            Rank::R6 => 5,
            Rank::R7 => 6,
            Rank::R8 => 7,
        }
    }

    /// The rank's label as text.
    pub fn to_string(&self) -> (s: String)
        ensures
            s@ == seq![self.label()],
    {
        proof {
            reveal_strlit("1");
            reveal_strlit("2");
            reveal_strlit("3");
            reveal_strlit("4");
            reveal_strlit("5");
            reveal_strlit("6");
            reveal_strlit("7");
            reveal_strlit("8");
        }
        let text = match self {
            Rank::R1 => "1",
            Rank::R2 => "2",
            Rank::R3 => "3",
            Rank::R4 => "4",
            Rank::R5 => "5",
            Rank::R6 => "6",
            Rank::R7 => "7",
            Rank::R8 => "8",
        };
        let s = String::from_str(text);
        s
    }

    /// Numbers and ranks correspond one to one.
    pub proof fn lemma_ordinal(self)
        ensures
            0 <= self.ordinal() <= 7,
            Rank::from_ordinal(self.ordinal()) == self,
    {
    }
}

/// A file (column) of the board, `A` being the queen's rook file.
#[derive(Debug, Copy, Clone, PartialEq, Eq, Hash, Structural)]
pub enum File {
    A,
    B,
    C,
    D,
    E,
    F,
    G,
    H,
}

impl File {
    /// The file's number counted from zero.
    pub open spec fn ordinal(self) -> int {
        match self {
            File::A => 0,
            File::B => 1,
            File::C => 2,
            File::D => 3,
            File::E => 4,
            File::F => 5,
            File::G => 6,
            File::H => 7,
        }
    }

    /// The file with the given number; only meaningful for 0 to 7.
    pub open spec fn from_ordinal(i: int) -> File {
        if i == 0 {
            File::A
        } else if i == 1 {
            File::B
        } else if i == 2 {
            File::C
        } else if i == 3 {
            File::D
        } else if i == 4 {
            File::E
        } else if i == 5 {
            File::F
        } else if i == 6 {
            File::G
        } else {
            File::H
        }
    }

    /// The letter that labels the file in a board diagram.
    pub open spec fn label(self) -> char {
        match self {
            File::A => 'a',
            File::B => 'b',
            File::C => 'c',
            File::D => 'd',
            File::E => 'e',
            File::F => 'f',
            File::G => 'g',
            File::H => 'h',
        }
    }

    /// The file with the given number, or nothing above 7.
    pub fn new_from_index(index: u8) -> (r: Option<File>)
        ensures
            index <= 7 ==> r == Some(File::from_ordinal(index as int)),
            index > 7 ==> r is None,
    {
        match index {
            0 => Some(File::A),
            1 => Some(File::B),
            2 => Some(File::C),
            3 => Some(File::D),
            4 => Some(File::E),
            5 => Some(File::F),
            6 => Some(File::G),
            7 => Some(File::H),
            _ => None,
        }
    }

    /// The file's number counted from zero.
    pub fn index(&self) -> (i: u8)
        ensures
            i == self.ordinal(),
    {
        match self {
            File::A => 0,
            File::B => 1,
            File::C => 2,
            File::D => 3,
            File::E => 4,
            File::F => 5,
            File::G => 6,
            File::H => 7,
        }
    }

    /// The file's label as text.
    pub fn to_string(&self) -> (s: String)
        ensures
            s@ == seq![self.label()],
    {
        proof {
            reveal_strlit("a");
            reveal_strlit("b");
            reveal_strlit("c");
            reveal_strlit("d");
            reveal_strlit("e");
            reveal_strlit("f");
            reveal_strlit("g");
            reveal_strlit("h");
        }
        let text = match self {
            File::A => "a",
            File::B => "b",
            File::C => "c",
            File::D => "d",
            File::E => "e",
            File::F => "f",
            File::G => "g",
            File::H => "h",
        };
        let s = String::from_str(text);
        s
    }

    /// Numbers and files correspond one to one.
    pub proof fn lemma_ordinal(self)
        ensures
            0 <= self.ordinal() <= 7,
            File::from_ordinal(self.ordinal()) == self,
    {
    }
}

/// Whether a file number and a rank number name a square of the board.
pub open spec fn on_board(file: int, rank: int) -> bool {
    0 <= file <= 7 && 0 <= rank <= 7
}

/// The address of one of the 64 squares.
#[derive(Debug, Copy, Clone, PartialEq, Eq, Hash, Structural)]
pub struct Coordinates {
    pub file: File,
    pub rank: Rank,
}

impl Coordinates {
    /// The square at the given file and rank numbers.
    pub open spec fn at(file: int, rank: int) -> Coordinates {
        Coordinates { file: File::from_ordinal(file), rank: Rank::from_ordinal(rank) }
    }

    /// The square with the given flat index.
    pub open spec fn from_flat(index: int) -> Coordinates {
        Coordinates::at(index % 8, index / 8)
    }

    /// The flat index of the square: eight times the rank number plus the
    /// file number.
    pub open spec fn flat(self) -> int {
        self.rank.ordinal() * 8 + self.file.ordinal()
    }

    /// The square reached by moving the given number of files and ranks,
    /// if that is still on the board.
    pub open spec fn shifted(self, file_offset: int, rank_offset: int) -> Option<Coordinates> {
        let file = self.file.ordinal() + file_offset;
        let rank = self.rank.ordinal() + rank_offset;
        if on_board(file, rank) {
            Some(Coordinates::at(file, rank))
        } else {
            None
        }
    }

    /// The squares reached from here by the offsets of a table, in the
    /// table's order, leaving out those that fall off the board.
    pub open spec fn shifted_all(self, offsets: Seq<(i8, i8)>) -> Seq<Coordinates>
        decreases offsets.len(),
    {
        if offsets.len() == 0 {
            Seq::empty()
        } else {
            let before = self.shifted_all(offsets.drop_last());
            match self.shifted(offsets.last().0 as int, offsets.last().1 as int) {
                Some(c) => before.push(c),
                None => before,
            }
        }
    }

    /// The squares met when walking from here in steps of the given
    /// offset, nearest first, for at most `reach` steps and only while on
    /// the board.
    pub open spec fn walk(self, file_offset: int, rank_offset: int, reach: nat) -> Seq<
        Coordinates,
    >
        decreases reach,
    {
        if reach == 0 {
            Seq::empty()
        } else {
            match self.shifted(file_offset, rank_offset) {
                Some(next) => seq![next] + next.walk(
                    file_offset,
                    rank_offset,
                    (reach - 1) as nat,
                ),
                None => Seq::empty(),
            }
        }
    }

    /// The whole ray from here in the direction of a nonzero offset: every
    /// square up to the edge of the board, nearest first. Seven steps cross
    /// the board.
    pub open spec fn ray(self, file_offset: int, rank_offset: int) -> Seq<Coordinates> {
        self.walk(file_offset, rank_offset, 7)
    }

    /// The text that names the square, such as `e4`.
    pub open spec fn name(self) -> Seq<char> {
        seq![self.file.label(), self.rank.label()]
    }

    /// The square with the given flat index, or nothing above 63.
    pub fn new_from_index(index: usize) -> (r: Option<Coordinates>)
        ensures
            index <= 63 ==> r == Some(Coordinates::from_flat(index as int)),
            index <= 63 ==> r.unwrap().flat() == index,
            index > 63 ==> r is None,
    {
        if index <= 63 {
            let index_u8 = index as u8;
            let file_u8 = index_u8 % 8;
            let file = File::new_from_index(file_u8).unwrap();
            let rank = Rank::new_from_index((index_u8 - file_u8) / 8).unwrap();
            Some(Coordinates { file, rank })
        } else {
            None
        }
    }

    /// The square on the given file and rank.
    pub fn new(file: File, rank: Rank) -> (r: Coordinates)
        ensures
            r.file == file,
            r.rank == rank,
    {
        Coordinates { file, rank }
    }

    /// The square reached by moving the given number of files and ranks, or
    /// nothing if that leaves the board.
    pub fn offset(&self, file_offset: i8, rank_offset: i8) -> (r: Option<Coordinates>)
        ensures
            r == self.shifted(file_offset as int, rank_offset as int),
    {
        let new_file: i16 = self.file.index() as i16 + file_offset as i16;
        let new_rank: i16 = self.rank.index() as i16 + rank_offset as i16;
        if 0 <= new_file && new_file <= 7 && 0 <= new_rank && new_rank <= 7 {
            let file = File::new_from_index(new_file as u8).unwrap();
            let rank = Rank::new_from_index(new_rank as u8).unwrap();
            Some(Coordinates::new(file, rank))
        } else {
            None
        }
    }

    /// The squares reached by each offset of a table, in the table's order,
    /// without those that fall off the board.
    pub fn offsets_filter(&self, offsets: &[(i8, i8)]) -> (r: Vec<Coordinates>)
        ensures
            r@ == self.shifted_all(offsets@),
    {
        let mut targets: Vec<Coordinates> = Vec::new();
        let mut i: usize = 0;
        while i < offsets.len()
            invariant
                i <= offsets.len(),
                targets@ == self.shifted_all(offsets@.take(i as int)),
            decreases offsets.len() - i,
        {
            let (file_offset, rank_offset) = offsets[i];
            assert(offsets@.take(i + 1).drop_last() =~= offsets@.take(i as int));
            if let Some(c) = self.offset(file_offset, rank_offset) {
                targets.push(c);
            }
            i = i + 1;
        }
        assert(offsets@.take(i as int) =~= offsets@);
        targets
    }

    /// Every square from here to the edge of the board in the direction of
    /// the given offset, nearest first. The offset must not be zero in both
    /// parts: the walk would never leave the square.
    pub fn offsets_repeated(&self, file_offset: i8, rank_offset: i8) -> (r: Vec<Coordinates>)
        requires
            file_offset != 0 || rank_offset != 0,
        ensures
            r@ == self.ray(file_offset as int, rank_offset as int),
            r@.len() <= 7,
    {
        let mut squares: Vec<Coordinates> = Vec::new();
        let mut current = *self;
        let mut steps: usize = 0;
        while steps < 7
            invariant
                steps <= 7,
                squares@.len() == steps,
                self.ray(file_offset as int, rank_offset as int) == squares@ + current.walk(
                    file_offset as int,
                    rank_offset as int,
                    (7 - steps) as nat,
                ),
            decreases 7 - steps,
        {
            match current.offset(file_offset, rank_offset) {
                Some(next) => {
                    squares.push(next);
                    current = next;
                    steps = steps + 1;
                },
                None => {
                    return squares;
                },
            }
        }
        squares
    }

    /// The square's rank.
    pub fn rank(&self) -> (r: Rank)
        ensures
            r == self.rank,
    {
        self.rank
    }

    /// The square's file.
    pub fn file(&self) -> (r: File)
        ensures
            r == self.file,
    {
        self.file
    }

    /// The flat index of the square, from 0 for a1 to 63 for h8.
    pub fn index(&self) -> (i: usize)
        ensures
            i == self.flat(),
            i <= 63,
    {
        calculate_index(self.file.index(), self.rank.index())
    }

    /// The square's name as text, such as `e4`.
    pub fn to_string(&self) -> (s: String)
        ensures
            s@ == self.name(),
    {
        let file = self.file.to_string();
        let rank = self.rank.to_string();
        let s = file.concat(rank.as_str());
        s
    }

    /// Flat indices and squares correspond one to one.
    pub proof fn lemma_flat(self)
        ensures
            0 <= self.flat() <= 63,
            Coordinates::from_flat(self.flat()) == self,
            Coordinates::at(self.file.ordinal(), self.rank.ordinal()) == self,
    {
    }

    /// The square made from a file and a rank number on the board has
    /// those numbers, and its flat index is eight times the rank plus the
    /// file.
    pub proof fn lemma_at(file: int, rank: int)
        requires
            on_board(file, rank),
        ensures
            Coordinates::at(file, rank).file.ordinal() == file,
            Coordinates::at(file, rank).rank.ordinal() == rank,
            Coordinates::at(file, rank).flat() == rank * 8 + file,
    {
    }

    /// Every flat index below 64 belongs to exactly one square.
    pub proof fn lemma_from_flat(index: int)
        requires
            0 <= index <= 63,
        ensures
            Coordinates::from_flat(index).flat() == index,
    {
    }
}

/// The squares of a walk are the steps' multiples: the square with the
/// number `i` lies `i + 1` steps from the start. A walk is no longer than
/// its reach.
pub proof fn lemma_walk(c: Coordinates, file_offset: int, rank_offset: int, reach: nat, i: int)
    requires
        0 <= i < c.walk(file_offset, rank_offset, reach).len(),
    ensures
        c.walk(file_offset, rank_offset, reach).len() <= reach,
        c.shifted((i + 1) * file_offset, (i + 1) * rank_offset) == Some(
            c.walk(file_offset, rank_offset, reach)[i],
        ),
    decreases reach,
{
    let next = c.shifted(file_offset, rank_offset)->0;
    Coordinates::lemma_at(c.file.ordinal() + file_offset, c.rank.ordinal() + rank_offset);
    lemma_walk_len(c, file_offset, rank_offset, reach);
    let walk = c.walk(file_offset, rank_offset, reach);
    if i > 0 {
        lemma_walk(next, file_offset, rank_offset, (reach - 1) as nat, i - 1);
        assert(file_offset + i * file_offset == (i + 1) * file_offset) by (nonlinear_arith);
        assert(rank_offset + i * rank_offset == (i + 1) * rank_offset) by (nonlinear_arith);
    } else {
        assert((i + 1) * file_offset == file_offset) by (nonlinear_arith)
            requires
                i == 0,
        ;
        assert((i + 1) * rank_offset == rank_offset) by (nonlinear_arith)
            requires
                i == 0,
        ;
    }
}

/// A walk is no longer than its reach, and where it is shorter, the next
/// step from its end leaves the board.
pub proof fn lemma_walk_len(c: Coordinates, file_offset: int, rank_offset: int, reach: nat)
    ensures
        c.walk(file_offset, rank_offset, reach).len() <= reach,
        c.walk(file_offset, rank_offset, reach).len() < reach ==> (if c.walk(
            file_offset,
            rank_offset,
            reach,
        ).len() == 0 {
            c
        } else {
            c.walk(file_offset, rank_offset, reach).last()
        }).shifted(file_offset, rank_offset) is None,
    decreases reach,
{
    if reach > 0 {
        if let Some(next) = c.shifted(file_offset, rank_offset) {
            lemma_walk_len(next, file_offset, rank_offset, (reach - 1) as nat);
        }
    }
}

/// A ray goes all the way to the edge of the board: one step beyond its
/// last square, or beyond the start where it is empty, leaves the board.
/// No ray is longer than seven squares.
pub proof fn lemma_ray_ends_at_edge(c: Coordinates, file_offset: int, rank_offset: int)
    requires
        file_offset != 0 || rank_offset != 0,
    ensures
        c.ray(file_offset, rank_offset).len() <= 7,
        c.shifted(
            (c.ray(file_offset, rank_offset).len() + 1) * file_offset,
            (c.ray(file_offset, rank_offset).len() + 1) * rank_offset,
        ) is None,
{
    let ray = c.ray(file_offset, rank_offset);
    let len = ray.len() as int;
    lemma_walk_len(c, file_offset, rank_offset, 7);
    c.lemma_flat();
    if len > 0 {
        lemma_walk(c, file_offset, rank_offset, 7, len - 1);
        Coordinates::lemma_at(
            c.file.ordinal() + len * file_offset,
            c.rank.ordinal() + len * rank_offset,
        );
        assert(len * file_offset + file_offset == (len + 1) * file_offset) by (nonlinear_arith);
        assert(len * rank_offset + rank_offset == (len + 1) * rank_offset) by (nonlinear_arith);
        if len == 7 {
            assert(file_offset != 0 ==> 8 * file_offset >= 8 || 8 * file_offset <= -8);
            assert(rank_offset != 0 ==> 8 * rank_offset >= 8 || 8 * rank_offset <= -8);
        }
    } else {
        assert(1 * file_offset == file_offset && 1 * rank_offset == rank_offset);
    }
}

/// The flat index of the square at the given file and rank numbers.
fn calculate_index(file: u8, rank: u8) -> (i: usize)
    requires
        file <= 7,
        rank <= 7,
    ensures
        i == rank * 8 + file,
{
    (rank as usize) * 8 + (file as usize)
}

} // verus!

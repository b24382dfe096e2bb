//! The board: a grid of squares, each empty or holding one piece.

use vstd::prelude::*;
use vstd::std_specs::cmp::PartialEqSpecImpl;
use crate::player::PlayerColor;

verus! {

/// What stands on a square: nothing, or the index of a piece in the catalog
/// together with the side that owns it.
pub type RawPiece = Option<(usize, PlayerColor)>;

/// Why an operation on a board was refused.
#[derive(Debug, PartialEq, Eq, Clone, Copy, Structural)]
pub enum BoardError {
    /// The square `(x, y)` is not on the board.
    OutOfBounds(usize, usize),
}

/// What an operation on a board answers.
pub type BoardResult<T> = Result<T, BoardError>;

/// A board as a mathematical value: its size, the occupied squares, its name.
pub struct BoardView {
    pub width: nat,
    pub height: nat,
    /// The occupied squares and what stands on each.
    pub cells: Map<(int, int), (usize, PlayerColor)>,
    pub name: Seq<char>,
}

impl BoardView {
    /// The size is one a board can have, and only squares of the board are
    /// occupied.
    pub open spec fn wf(self) -> bool {
        &&& Board::size_ok(self.width as int, self.height as int)
        &&& forall|x: int, y: int| #[trigger]
            self.cells.dom().contains((x, y)) ==> self.in_bounds(x, y)
    }

    /// Whether `(x, y)` is a square of the board.
    pub open spec fn in_bounds(self, x: int, y: int) -> bool {
        0 <= x < self.width && 0 <= y < self.height
    }

    /// What stands on `(x, y)`; nothing stands outside the board.
    pub open spec fn occupant(self, x: int, y: int) -> RawPiece {
        if self.cells.dom().contains((x, y)) {
            Some(self.cells[(x, y)])
        } else {
            None
        }
    }

    /// The board with `(x, y)` made to hold `piece`.
    pub open spec fn put(self, x: int, y: int, piece: RawPiece) -> BoardView {
        BoardView {
            cells: match piece {
                Some(p) => self.cells.insert((x, y), p),
                None => self.cells.remove((x, y)),
            },
            ..self
        }
    }

    /// The board with every square emptied.
    pub open spec fn cleared(self) -> BoardView {
        BoardView { cells: Map::empty(), ..self }
    }

    /// The board under another name.
    pub open spec fn renamed(self, name: Seq<char>) -> BoardView {
        BoardView { name, ..self }
    }

    /// The board after `move_piece` went through: the target holds what stood
    /// on the source, and the source is empty.
    pub open spec fn moved(self, x: int, y: int, dx: int, dy: int) -> BoardView {
        self.put(dx, dy, self.occupant(x, y)).put(x, y, None)
    }

    /// What `move_piece` answers: the source is looked at first.
    pub open spec fn move_piece_result(self, x: usize, y: usize, dx: usize, dy: usize) -> BoardResult<()> {
        if !self.in_bounds(x as int, y as int) {
            Err(BoardError::OutOfBounds(x, y))
        } else if !self.in_bounds(dx as int, dy as int) {
            Err(BoardError::OutOfBounds(dx, dy))
        } else {
            Ok(())
        }
    }

    /// The empty board of the given size, under the name every new board has.
    pub open spec fn empty(width: nat, height: nat) -> BoardView {
        BoardView { width, height, cells: Map::empty(), name: "Board"@ }
    }

    /// Whether `(x, y)` is a square of the board, as the operations that take
    /// one square answer.
    pub open spec fn check_pos(self, x: usize, y: usize) -> BoardResult<()> {
        if self.in_bounds(x as int, y as int) {
            Ok(())
        } else {
            Err(BoardError::OutOfBounds(x, y))
        }
    }

    /// What `get` answers.
    pub open spec fn get(self, x: usize, y: usize) -> BoardResult<RawPiece> {
        if self.in_bounds(x as int, y as int) {
            Ok(self.occupant(x as int, y as int))
        } else {
            Err(BoardError::OutOfBounds(x, y))
        }
    }
}

impl BoardView {
    /// What was put on a square is what is found there, and every other
    /// square holds what it held.
    pub proof fn lemma_put_then_get(self, x: usize, y: usize, piece: RawPiece)
        requires
            self.in_bounds(x as int, y as int),
        ensures
            self.put(x as int, y as int, piece).get(x, y) == Ok::<RawPiece, BoardError>(piece),
            forall|x2: int, y2: int|
                x2 != x || y2 != y ==> #[trigger] self.put(x as int, y as int, piece).occupant(
                    x2,
                    y2,
                ) == self.occupant(x2, y2),
    {
    }

    /// A square off the board is refused by every operation, with the error
    /// that names it. Of the two squares of `move_piece`, the source is
    /// looked at first.
    pub proof fn lemma_out_of_bounds(self, x: usize, y: usize, x2: usize, y2: usize)
        requires
            x >= self.width || y >= self.height,
        ensures
            self.get(x, y) == Err::<RawPiece, BoardError>(BoardError::OutOfBounds(x, y)),
            self.check_pos(x, y) == Err::<(), BoardError>(BoardError::OutOfBounds(x, y)),
            self.move_piece_result(x, y, x2, y2) == Err::<(), BoardError>(
                BoardError::OutOfBounds(x, y),
            ),
            self.in_bounds(x2 as int, y2 as int) ==> self.move_piece_result(x2, y2, x, y) == Err::<
                (),
                BoardError,
            >(BoardError::OutOfBounds(x, y)),
    {
    }

    /// A cleared board is empty on every square, and is the new board of its
    /// size but for the name, which it keeps.
    pub proof fn lemma_cleared_is_new(self)
        ensures
            forall|x: int, y: int| #[trigger] self.cleared().occupant(x, y) is None,
            forall|x: usize, y: usize|
                self.in_bounds(x as int, y as int) ==> #[trigger] self.cleared().get(x, y) == Ok::<
                    RawPiece,
                    BoardError,
                >(None),
            self.cleared() == Self::empty(self.width, self.height).renamed(self.name),
            self.name == "Board"@ ==> self.cleared() == Self::empty(self.width, self.height),
    {
    }
}

/// A board of a fixed size. Its squares are counted from `(0, 0)`; each is
/// empty or holds one piece.
#[derive(Debug, Eq, Hash)]
pub struct Board {
    width: usize,
    height: usize,
    /// Column after column: `(x, y)` is at `x * height + y`.
    board: Vec<RawPiece>,
    name: String,
}

impl View for Board {
    type V = BoardView;

    closed spec fn view(&self) -> BoardView {
        BoardView {
            width: self.width as nat,
            height: self.height as nat,
            cells: Map::new(
                |p: (int, int)|
                    0 <= p.0 < self.width && 0 <= p.1 < self.height
                        && self.board[place(self.height as int, p.0, p.1)] is Some,
                |p: (int, int)| self.board[place(self.height as int, p.0, p.1)].unwrap(),
            ),
            name: self.name@,
        }
    }
}

/// Where `(x, y)` lies in a grid of the given height that is laid out column
/// after column.
spec fn place(height: int, x: int, y: int) -> int {
    x * height + y
}

/// The squares of a `width` by `height` grid take the places
/// `0 .. width * height`, each square its own.
proof fn lemma_grid(width: int, height: int)
    ensures
        forall|x: int, y: int|
            0 <= x < width && 0 <= y < height ==> 0 <= #[trigger] place(height, x, y) < width
                * height,
        forall|x: int, y: int, x2: int, y2: int|
            0 <= x < width && 0 <= y < height && 0 <= x2 < width && 0 <= y2 < height && (x2 != x
                || y2 != y) ==> #[trigger] place(height, x, y) != #[trigger] place(height, x2, y2),
{
    assert forall|x: int, y: int| 0 <= x < width && 0 <= y < height implies 0 <= #[trigger] place(
        height,
        x,
        y,
    ) < width * height by {
        assert(0 <= x * height && x * height + height <= width * height) by (nonlinear_arith)
            requires
                0 <= x < width,
                0 < height,
        ;
    }
    assert forall|x: int, y: int, x2: int, y2: int|
        0 <= x < width && 0 <= y < height && 0 <= x2 < width && 0 <= y2 < height && (x2 != x || y2
            != y) implies #[trigger] place(height, x, y) != #[trigger] place(height, x2, y2) by {
        if x2 < x {
            assert(x2 * height + height <= x * height) by (nonlinear_arith)
                requires
                    x2 < x,
                    0 < height,
            ;
        } else if x < x2 {
            assert(x * height + height <= x2 * height) by (nonlinear_arith)
                requires
                    x < x2,
                    0 < height,
            ;
        }
    }
}

impl Board {
    /// The sizes a board can have: both sides positive, and no more squares
    /// than one vector can hold.
    pub open spec fn size_ok(width: int, height: int) -> bool {
        0 < width && 0 < height && width * height <= isize::MAX
    }

    /// Each side of a board is at most the number of its squares, and so no
    /// more than `isize::MAX`.
    pub proof fn lemma_size(width: int, height: int)
        requires
            Self::size_ok(width, height),
        ensures
            width <= isize::MAX,
            height <= isize::MAX,
    {
        assert(width <= width * height && height <= width * height) by (nonlinear_arith)
            requires
                0 < width,
                0 < height,
        ;
    }

    /// What holds of every board: it has a size that a board can have, and
    /// a place for every square.
    #[verifier::type_invariant]
    pub closed spec fn inv(self) -> bool {
        &&& Self::size_ok(self.width as int, self.height as int)
        &&& self.board.len() == self.width * self.height
    }

    /// The view of a board is well formed.
    pub proof fn lemma_view_wf(self)
        requires
            self.inv(),
        ensures
            self@.wf(),
    {
    }

    /// The empty board of `width` columns and `height` rows.
    pub fn new(width: usize, height: usize) -> (board: Board)
        requires
            Self::size_ok(width as int, height as int),
        ensures
            board@ == BoardView::empty(width as nat, height as nat),
    {
        let count: usize = width * height;
        let mut board: Vec<RawPiece> = Vec::with_capacity(count);
        let mut i: usize = 0;
        while i < count
            invariant
                i <= count,
                board.len() == i,
                forall|j: int| 0 <= j < i ==> (#[trigger] board[j]) is None,
            decreases count - i,
        {
            board.push(None);
            i += 1;
        }
        let name = "Board".to_string();
        let b = Board { width, height, board, name };
        assert(b@.cells =~= Map::empty()) by {
            lemma_grid(width as int, height as int);
        }
        b
    }

    /// The number of columns.
    pub fn width(&self) -> (w: usize)
        ensures
            w == self@.width,
            self@.wf(),
    {
        proof {
            use_type_invariant(self);
        }
        self.width
    }

    /// The number of rows.
    pub fn height(&self) -> (h: usize)
        ensures
            h == self@.height,
            self@.wf(),
    {
        proof {
            use_type_invariant(self);
        }
        self.height
    }

    /// Makes `(x, y)` hold `piece`.
    pub fn set(&mut self, x: usize, y: usize, piece: RawPiece) -> (r: BoardResult<()>)
        ensures
            r == old(self)@.check_pos(x, y),
            final(self)@ == (if r is Ok {
                old(self)@.put(x as int, y as int, piece)
            } else {
                old(self)@
            }),
        no_unwind
    {
        proof {
            use_type_invariant(&*self);
            lemma_grid(self.width as int, self.height as int);
        }
        if x >= self.width || y >= self.height {
            return Err(BoardError::OutOfBounds(x, y));
        }
        assert(0 <= place(self.height as int, x as int, y as int) < self.board.len());
        let at = x * self.height + y;
        self.board[at] = piece;
        assert(self@.cells =~= old(self)@.put(x as int, y as int, piece).cells);
        Ok(())
    }

    /// What stands on `(x, y)`.
    pub fn get(&self, x: usize, y: usize) -> (r: BoardResult<RawPiece>)
        ensures
            r == self@.get(x, y),
    {
        proof {
            use_type_invariant(self);
            lemma_grid(self.width as int, self.height as int);
        }
        if x >= self.width || y >= self.height {
            return Err(BoardError::OutOfBounds(x, y));
        }
        assert(0 <= place(self.height as int, x as int, y as int) < self.board.len());
        Ok(self.board[x * self.height + y])
    }

    /// Moves what stands on `(x, y)` to `(dx, dy)`, over whatever stood
    /// there, and leaves `(x, y)` empty. Whether the move is legal is not
    /// asked here.
    pub fn move_piece(&mut self, x: usize, y: usize, dx: usize, dy: usize) -> (r: BoardResult<()>)
        ensures
            r == old(self)@.move_piece_result(x, y, dx, dy),
            final(self)@ == (if r is Ok {
                old(self)@.moved(x as int, y as int, dx as int, dy as int)
            } else {
                old(self)@
            }),
    {
        let piece = match self.get(x, y) {
            Ok(piece) => piece,
            Err(e) => {
                return Err(e);
            },
        };
        match self.set(dx, dy, piece) {
            Ok(()) => {},
            Err(e) => {
                return Err(e);
            },
        }
        self.set(x, y, None)
    }

    /// Empties `(x, y)`.
    pub fn clear_pos(&mut self, x: usize, y: usize) -> (r: BoardResult<()>)
        ensures
            r == old(self)@.check_pos(x, y),
            final(self)@ == (if r is Ok {
                old(self)@.put(x as int, y as int, None)
            } else {
                old(self)@
            }),
    {
        self.set(x, y, None)
    }

    /// Empties every square.
    pub fn clear(&mut self)
        ensures
            final(self)@ == old(self)@.cleared(),
    {
        proof {
            use_type_invariant(&*self);
        }
        let count = self.board.len();
        let mut i: usize = 0;
        while i < count
            invariant
                i <= count,
                self.board.len() == count,
                self.width == old(self).width,
                self.height == old(self).height,
                self.name == old(self).name,
                count == self.width * self.height,
                Self::size_ok(self.width as int, self.height as int),
                forall|j: int| 0 <= j < i ==> (#[trigger] self.board[j]) is None,
            decreases count - i,
        {
            self.board[i] = None;
            i += 1;
        }
        assert(self@.cells =~= Map::empty()) by {
            lemma_grid(self.width as int, self.height as int);
        }
    }

    /// Gives the board another name.
    pub fn set_name(&mut self, name: &str)
        ensures
            final(self)@ == old(self)@.renamed(name@),
    {
        proof {
            use_type_invariant(&*self);
        }
        self.name = name.to_string();
    }

    /// The name of the board; a new board is called `Board`.
    pub fn name(&self) -> (name: String)
        ensures
            name@ == self@.name,
    {
        self.name.clone()
    }
}

/// Whether two squares hold the same.
fn same_piece(a: RawPiece, b: RawPiece) -> (r: bool)
    ensures
        r == (a == b),
{
    match (a, b) {
        (None, None) => true,
        (Some((i, c)), Some((j, d))) => i == j && c == d,
        _ => false,
    }
}

impl PartialEq for Board {
    /// Two boards are equal when they have the same size, the same name and
    /// the same piece, or none, on every square.
    fn eq(&self, other: &Board) -> (r: bool) {
        proof {
            use_type_invariant(self);
            use_type_invariant(other);
            lemma_grid(self.width as int, self.height as int);
        }
        if self.width != other.width || self.height != other.height || self.name != other.name {
            return false;
        }
        let mut x: usize = 0;
        while x < self.width
            invariant
                x <= self.width,
                self.width == other.width,
                self.height == other.height,
                self.board.len() == self.width * self.height,
                other.board.len() == self.width * self.height,
                forall|i: int, j: int|
                    0 <= i < self.width && 0 <= j < self.height ==> 0 <= #[trigger] place(
                        self.height as int,
                        i,
                        j,
                    ) < self.width * self.height,
                forall|i: int, j: int|
                    0 <= i < x && 0 <= j < self.height ==> self.board[#[trigger] place(
                        self.height as int,
                        i,
                        j,
                    )] == other.board[place(self.height as int, i, j)],
            decreases self.width - x,
        {
            let mut y: usize = 0;
            while y < self.height
                invariant
                    x < self.width,
                    y <= self.height,
                    self.width == other.width,
                    self.height == other.height,
                    self.board.len() == self.width * self.height,
                    other.board.len() == self.width * self.height,
                    forall|i: int, j: int|
                        0 <= i < self.width && 0 <= j < self.height ==> 0 <= #[trigger] place(
                            self.height as int,
                            i,
                            j,
                        ) < self.width * self.height,
                    forall|i: int, j: int|
                        0 <= i < x && 0 <= j < self.height ==> self.board[#[trigger] place(
                            self.height as int,
                            i,
                            j,
                        )] == other.board[place(self.height as int, i, j)],
                    forall|j: int|
                        0 <= j < y ==> self.board[#[trigger] place(self.height as int, x as int, j)]
                            == other.board[place(self.height as int, x as int, j)],
                decreases self.height - y,
            {
                assert(0 <= place(self.height as int, x as int, y as int) < self.board.len());
                let at = x * self.height + y;
                if !same_piece(self.board[at], other.board[at]) {
                    assert(self@.occupant(x as int, y as int) != other@.occupant(x as int, y as int));
                    return false;
                }
                y += 1;
            }
            x += 1;
        }
        assert(self@.cells =~= other@.cells);
        true
    }
}

/// `==` on boards is equality of what they are as mathematical values.
impl PartialEqSpecImpl for Board {
    open spec fn obeys_eq_spec() -> bool {
        true
    }

    open spec fn eq_spec(&self, other: &Board) -> bool {
        self@ == other@
    }
}

impl Clone for Board {
    fn clone(&self) -> (copy: Board)
        ensures
            copy@ == self@,
    {
        proof {
            use_type_invariant(self);
        }
        let count = self.board.len();
        let mut board: Vec<RawPiece> = Vec::with_capacity(count);
        let mut i: usize = 0;
        while i < count
            invariant
                i <= count,
                count == self.board.len(),
                board@ == self.board@.subrange(0, i as int),
            decreases count - i,
        {
            board.push(self.board[i]);
            i += 1;
        }
        assert(board@ =~= self.board@);
        let copy = Board { width: self.width, height: self.height, board, name: self.name.clone() };
        assert(copy@.cells =~= self@.cells);
        copy
    }
}

} // verus!

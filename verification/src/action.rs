//! The actions that a turn is made of, and what they do to a board.

use vstd::prelude::*;
use crate::board::{Board, BoardError, BoardResult, BoardView};
use crate::player::Player;

verus! {

/// One step of a turn.
#[derive(Clone, Copy, Debug, PartialEq, Eq, Structural)]
pub enum Action {
    /// Doing nothing.
    Stay,
    /// Moving the piece on `(x, y)` to `(x2, y2)`.
    Movement(usize, usize, usize, usize),
}

impl Action {
    /// What `execute` answers on this board: a movement needs its source on
    /// the board, then its target; the source is looked at first.
    pub open spec fn outcome(self, board: BoardView) -> BoardResult<()> {
        match self {
            Action::Stay => Ok(()),
            Action::Movement(x, y, x2, y2) => if !board.in_bounds(x as int, y as int) {
                Err(BoardError::OutOfBounds(x, y))
            } else if !board.in_bounds(x2 as int, y2 as int) {
                Err(BoardError::OutOfBounds(x2, y2))
            } else {
                Ok(())
            },
        }
    }

    /// The board that `execute` leaves. A movement empties its source and
    /// then puts what stood there on its target; where the target is not
    /// on the board, the source has been emptied all the same.
    pub open spec fn applied(self, board: BoardView) -> BoardView {
        match self {
            Action::Stay => board,
            Action::Movement(x, y, x2, y2) => if !board.in_bounds(x as int, y as int) {
                board
            } else if !board.in_bounds(x2 as int, y2 as int) {
                board.put(x as int, y as int, None)
            } else {
                board.put(x as int, y as int, None).put(
                    x2 as int,
                    y2 as int,
                    board.occupant(x as int, y as int),
                )
            },
        }
    }

    /// Carries the action out on the board. The player is left as it is.
    pub fn execute(&self, board: &mut Board, _player: &mut Player) -> (r: BoardResult<()>)
        ensures
            r == self.outcome(old(board)@),
            final(board)@ == self.applied(old(board)@),
            *final(_player) == *old(_player),
    {
        match self {
            Action::Stay => Ok(()),
            Action::Movement(x, y, x2, y2) => {
                let piece = match board.get(*x, *y) {
                    Ok(piece) => piece,
                    Err(e) => {
                        return Err(e);
                    },
                };
                match board.set(*x, *y, None) {
                    Ok(()) => {},
                    Err(e) => {
                        return Err(e);
                    },
                }
                board.set(*x2, *y2, piece)
            },
        }
    }
}

/// A movement between two squares of the board, from an occupied square to
/// another, goes through: the piece stands on the target, the source is
/// empty, and nothing else has changed.
pub proof fn lemma_movement_moves(board: BoardView, x: usize, y: usize, x2: usize, y2: usize)
    requires
        board.in_bounds(x as int, y as int),
        board.in_bounds(x2 as int, y2 as int),
        board.occupant(x as int, y as int) is Some,
        x != x2 || y != y2,
    ensures
        Action::Movement(x, y, x2, y2).outcome(board) == Ok::<(), BoardError>(()),
        Action::Movement(x, y, x2, y2).applied(board).occupant(x2 as int, y2 as int)
            == board.occupant(x as int, y as int),
        Action::Movement(x, y, x2, y2).applied(board).occupant(x as int, y as int) is None,
        forall|i: int, j: int|
            (i != x || j != y) && (i != x2 || j != y2) ==> #[trigger] Action::Movement(
                x,
                y,
                x2,
                y2,
            ).applied(board).occupant(i, j) == board.occupant(i, j),
{
}

/// The board after the actions were carried out one after another, or the
/// error of the first that failed.
pub open spec fn played(board: BoardView, actions: Seq<Action>) -> BoardResult<BoardView>
    decreases actions.len(),
{
    if actions.len() == 0 {
        Ok(board)
    } else {
        match played(board, actions.drop_last()) {
            Ok(before) => match actions.last().outcome(before) {
                Ok(()) => Ok(actions.last().applied(before)),
                Err(e) => Err(e),
            },
            Err(e) => Err(e),
        }
    }
}

impl Board {
    /// The board as it would be after the actions, and the player as they
    /// leave it. This board itself is not touched.
    pub fn do_actions(&self, player: &Player, actions: &Vec<Action>) -> (r: BoardResult<
        (Board, Player),
    >)
        ensures
            match r {
                Ok((board, after)) => played(self@, actions@) == Ok::<BoardView, BoardError>(board@)
                    && after == *player,
                Err(e) => played(self@, actions@) == Err::<BoardView, BoardError>(e),
            },
    {
        let mut board = self.clone();
        let mut after = *player;
        let mut i: usize = 0;
        while i < actions.len()
            invariant
                i <= actions.len(),
                after == *player,
                played(self@, actions@.take(i as int)) == Ok::<BoardView, BoardError>(board@),
            decreases actions.len() - i,
        {
            proof {
                let next = actions@.take(i + 1);
                assert(next.drop_last() =~= actions@.take(i as int));
                assert(next.last() == actions[i as int]);
            }
            match actions[i].execute(&mut board, &mut after) {
                Ok(()) => {},
                Err(e) => {
                    proof {
                        lemma_played_fails(self@, actions@, i + 1);
                    }
                    return Err(e);
                },
            }
            i += 1;
        }
        assert(actions@.take(i as int) =~= actions@);
        Ok((board, after))
    }
}

/// Once the first `n` actions have failed, all of them fail, with the same
/// error.
pub proof fn lemma_played_fails(board: BoardView, actions: Seq<Action>, n: int)
    requires
        0 <= n <= actions.len(),
        played(board, actions.take(n)) is Err,
    ensures
        played(board, actions) == played(board, actions.take(n)),
    decreases actions.len() - n,
{
    if n == actions.len() {
        assert(actions.take(n) =~= actions);
    } else {
        let next = actions.take(n + 1);
        assert(next.drop_last() =~= actions.take(n));
        lemma_played_fails(board, actions, n + 1);
    }
}

/// Whether every piece on the board is of a kind below `kinds`.
pub open spec fn pieces_below(board: BoardView, kinds: nat) -> bool {
    forall|x: int, y: int|
        (#[trigger] board.occupant(x, y)) matches Some((piece, _)) ==> piece < kinds
}

/// Actions move the pieces of a board and do nothing else: the board they
/// leave is a board of the same size and name, with no kind of piece on it
/// that was not there before.
pub proof fn lemma_played_keeps(board: BoardView, actions: Seq<Action>, kinds: nat)
    requires
        board.wf(),
        pieces_below(board, kinds),
        played(board, actions) is Ok,
    ensures
        played(board, actions)->Ok_0.wf(),
        played(board, actions)->Ok_0.width == board.width,
        played(board, actions)->Ok_0.height == board.height,
        played(board, actions)->Ok_0.name == board.name,
        pieces_below(played(board, actions)->Ok_0, kinds),
    decreases actions.len(),
{
    if actions.len() > 0 {
        lemma_played_keeps(board, actions.drop_last(), kinds);
        let before = played(board, actions.drop_last())->Ok_0;
        let after = actions.last().applied(before);
        match actions.last() {
            Action::Stay => {},
            Action::Movement(x, y, x2, y2) => {
                let lifted = before.put(x as int, y as int, None);
                assert forall|i: int, j: int| #[trigger]
                    after.cells.dom().contains((i, j)) implies after.in_bounds(i, j) by {
                    if !(i == x2 && j == y2) {
                        assert(before.cells.dom().contains((i, j)));
                    }
                }
                assert forall|i: int, j: int|
                    (#[trigger] after.occupant(i, j)) is Some implies (after.occupant(
                        i,
                        j,
                    ).unwrap().0) < kinds by {
                    if i == x2 && j == y2 {
                        assert(after.occupant(i, j) == before.occupant(x as int, y as int));
                    } else {
                        assert(after.occupant(i, j) == lifted.occupant(i, j));
                        if !(i == x && j == y) {
                            assert(lifted.occupant(i, j) == before.occupant(i, j));
                        }
                    }
                }
            },
        }
    }
}

} // verus!

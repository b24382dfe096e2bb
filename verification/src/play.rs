//! A game in play: the legs of the move being entered are held back and
//! checked one by one, and reach the board together or not at all.

use vstd::prelude::*;
use crate::action::{lemma_played_keeps, played, Action};
use crate::board::{Board, BoardError, BoardResult, BoardView, RawPiece};
use crate::game::{Game, GameView};
use crate::movement::RawMovement;
use crate::moves::offsets;
use crate::player::{Player, PlayerColor};

verus! {

/// What a player does to a game in play.
#[derive(Clone, Copy, Debug, PartialEq, Eq, Structural)]
pub enum SharmatMessage {
    /// The square `(x, y)` was touched.
    TileTouched(usize, usize),
}

/// A game in play as a mathematical value.
pub struct SharmatView {
    pub game: GameView,
    /// The square from which the next leg starts, once a piece is chosen.
    pub last_touch: Option<(usize, usize)>,
    /// The legs entered so far this turn. They have not reached the board.
    pub actions: Seq<Action>,
}

impl SharmatView {
    /// A game that can be played, with legs that can be carried out.
    pub open spec fn wf(self) -> bool {
        &&& self.game.wf()
        &&& self.game.playable()
        &&& played(self.game.board, self.actions) is Ok
    }

    /// The player to move.
    pub open spec fn mover(self) -> Player {
        self.game.players[self.game.current_player as int]
    }

    /// The board as it would be with the legs entered so far carried out.
    pub open spec fn hypothetical(self) -> BoardView {
        match played(self.game.board, self.actions) {
            Ok(board) => board,
            Err(_) => self.game.board,
        }
    }

    /// The piece that the turn belongs to, for a leg that starts on
    /// `(sx, sy)`: the piece that the first leg of the turn starts from. It
    /// is read on the board of the game, where it still stands.
    pub open spec fn originating(self, sx: usize, sy: usize) -> RawPiece {
        if self.actions.len() == 0 {
            self.game.board.occupant(sx as int, sy as int)
        } else {
            match self.actions[0] {
                Action::Movement(ox, oy, _, _) => self.game.board.occupant(ox as int, oy as int),
                Action::Stay => None,
            }
        }
    }

    /// The offsets open to the next leg where it starts on `(sx, sy)`: those
    /// of the tree that the piece of the turn has for this leg, for the player
    /// to move, on the board as the legs entered so far would leave it. There
    /// are none where no piece of the player stands on `(sx, sy)` or the
    /// piece of the turn has no further leg.
    pub open spec fn leg_moves(self, sx: usize, sy: usize) -> Seq<(int, int)> {
        let leg = self.actions.len() as int;
        match (self.hypothetical().occupant(sx as int, sy as int), self.originating(sx, sy)) {
            (Some((_, color)), Some((kind, _))) => if color == self.mover().color && kind
                < self.game.pieces.len() && leg < self.game.pieces[kind as int].movement_type.len() {
                self.game.pieces[kind as int].movement_type[leg].moves(
                    self.hypothetical(),
                    self.mover(),
                    self.actions,
                    sx as int,
                    sy as int,
                )
            } else {
                Seq::empty()
            },
            _ => Seq::empty(),
        }
    }

    /// Whether `action` may be the next leg: it is a movement by one of the
    /// offsets open to the next leg.
    pub open spec fn legal(self, action: Action) -> bool {
        match action {
            Action::Stay => false,
            Action::Movement(sx, sy, x, y) => self.leg_moves(sx, sy).contains((x - sx, y - sy)),
        }
    }

    /// How many legs the turn has that `action` is a leg of.
    pub open spec fn legs_of_turn(self, action: Action) -> int {
        match action {
            Action::Movement(sx, sy, _, _) => match self.originating(sx, sy) {
                Some((kind, _)) => if kind < self.game.pieces.len() {
                    self.game.pieces[kind as int].movement_type.len() as int
                } else {
                    0
                },
                None => 0,
            },
            Action::Stay => 0,
        }
    }

    /// The game after the legs entered so far were carried out together and
    /// the turn passed on.
    pub open spec fn submitted(self) -> SharmatView {
        SharmatView {
            game: (GameView { board: self.hypothetical(), ..self.game }).advanced(),
            last_touch: None,
            actions: Seq::empty(),
        }
    }

    /// The game after `action` was entered as the next leg: where it was the
    /// last leg of the turn, the turn is carried out; else the next leg
    /// starts where this one ended.
    pub open spec fn pushed(self, action: Action) -> SharmatView {
        let entered = SharmatView { actions: self.actions.push(action), ..self };
        if entered.actions.len() >= self.legs_of_turn(action) {
            entered.submitted()
        } else {
            SharmatView {
                last_touch: match action {
                    Action::Movement(_, _, x, y) => Some((x, y)),
                    Action::Stay => self.last_touch,
                },
                ..entered
            }
        }
    }

    /// The game with all that was entered this turn forgotten.
    pub open spec fn reset(self) -> SharmatView {
        SharmatView { last_touch: None, actions: Seq::empty(), ..self }
    }

    /// The game after the square `(x, y)` was touched. With a piece chosen,
    /// the touch asks for the leg from the square of that piece to `(x, y)`:
    /// a legal leg is entered, any other forgets the turn so far. With no
    /// piece chosen, the touch chooses the piece on `(x, y)`, if the player
    /// to move has one there.
    pub open spec fn touched(self, x: usize, y: usize) -> SharmatView {
        match self.last_touch {
            Some((sx, sy)) => if self.legal(Action::Movement(sx, sy, x, y)) {
                self.pushed(Action::Movement(sx, sy, x, y))
            } else {
                self.reset()
            },
            None => match self.game.board.occupant(x as int, y as int) {
                Some((_, color)) => if color == self.mover().color {
                    SharmatView { last_touch: Some((x, y)), ..self }
                } else {
                    self
                },
                None => self,
            },
        }
    }

    /// The game after the player did what the message says.
    pub open spec fn updated(self, message: SharmatMessage) -> SharmatView {
        match message {
            SharmatMessage::TileTouched(x, y) => self.touched(x, y),
        }
    }

    /// The squares to show as reachable from `(x, y)`: for a piece of the
    /// player to move, where its next leg can end; for a piece of the other
    /// side, where `show_opponent` is set, where the first leg of its turn
    /// could end if its owner were to move.
    pub open spec fn hints_at(self, x: usize, y: usize, show_opponent: bool) -> Seq<(int, int)> {
        let board = self.hypothetical();
        let moves = match board.occupant(x as int, y as int) {
            Some((kind, color)) => if color == self.mover().color {
                self.leg_moves(x, y)
            } else if show_opponent && kind < self.game.pieces.len() && 0
                < self.game.pieces[kind as int].movement_type.len() {
                self.game.pieces[kind as int].movement_type[0].moves(
                    board,
                    Player { color },
                    self.actions,
                    x as int,
                    y as int,
                )
            } else {
                Seq::empty()
            },
            None => Seq::empty(),
        };
        Seq::new(moves.len(), |i: int| (x + moves[i].0, y + moves[i].1))
    }

    /// The squares to show as reachable: from the piece chosen, or else from
    /// the square `(x, y)` pointed at, where `usize::MAX` stands for pointing
    /// at nothing; none at all unless `show` is set.
    pub open spec fn hints(self, x: usize, y: usize, show: bool, show_opponent: bool) -> Seq<
        (int, int),
    > {
        if !show {
            Seq::empty()
        } else {
            match self.last_touch {
                Some((tx, ty)) => self.hints_at(tx, ty, show_opponent),
                None => if x == usize::MAX {
                    Seq::empty()
                } else {
                    self.hints_at(x, y, show_opponent)
                },
            }
        }
    }
}

/// Whether every one of the offsets leads from `(x, y)` to a square of the
/// board.
pub open spec fn on_board(board: BoardView, x: int, y: int, moves: Seq<(int, int)>) -> bool {
    forall|i: int|
        0 <= i < moves.len() ==> board.in_bounds(x + (#[trigger] moves[i]).0, y + moves[i].1)
}

/// Squares as pairs of integers.
pub open spec fn squares(list: Seq<(usize, usize)>) -> Seq<(int, int)> {
    Seq::new(list.len(), |i: int| (list[i].0 as int, list[i].1 as int))
}

impl SharmatView {
    /// The board that the legs entered so far would leave is a board like that
    /// of the game: of the same size, with pieces that the catalog holds.
    pub proof fn lemma_hypothetical(self)
        requires
            self.wf(),
        ensures
            played(self.game.board, self.actions) == Ok::<BoardView, BoardError>(
                self.hypothetical(),
            ),
            self.hypothetical().wf(),
            self.hypothetical().width == self.game.board.width,
            self.hypothetical().height == self.game.board.height,
            self.game.knows_pieces_of(self.hypothetical()),
            self.actions.len() == 0 ==> self.hypothetical() == self.game.board,
    {
        lemma_played_keeps(self.game.board, self.actions, self.game.pieces.len());
    }

    /// Every offset open to the next leg leads to a square of the board.
    pub proof fn lemma_leg_moves_on_board(self, sx: usize, sy: usize, i: int)
        requires
            self.wf(),
            0 <= i < self.leg_moves(sx, sy).len(),
        ensures
            self.hypothetical().in_bounds(sx as int, sy as int),
            self.hypothetical().in_bounds(
                sx + self.leg_moves(sx, sy)[i].0,
                sy + self.leg_moves(sx, sy)[i].1,
            ),
    {
        self.lemma_hypothetical();
        let board = self.hypothetical();
        assert(board.cells.dom().contains((sx as int, sy as int)));
        let kind = self.originating(sx, sy).unwrap().0;
        let leg = self.actions.len() as int;
        self.game.pieces[kind as int].movement_type[leg].lemma_moves_on_board(
            board,
            self.mover(),
            self.actions,
            sx as int,
            sy as int,
            i,
        );
    }

    /// A legal leg can be carried out after those entered so far, and the
    /// game stays a game that can be played, whether the leg ends the turn
    /// or not.
    pub proof fn lemma_pushed_wf(self, action: Action)
        requires
            self.wf(),
            self.legal(action),
        ensures
            played(self.game.board, self.actions.push(action)) is Ok,
            (SharmatView { actions: self.actions.push(action), ..self }).wf(),
            self.pushed(action).wf(),
    {
        self.lemma_hypothetical();
        let entered = SharmatView { actions: self.actions.push(action), ..self };
        match action {
            Action::Stay => {},
            Action::Movement(sx, sy, x, y) => {
                let moves = self.leg_moves(sx, sy);
                let i = choose|i: int| 0 <= i < moves.len() && moves[i] == (x - sx, y - sy);
                self.lemma_leg_moves_on_board(sx, sy, i);
                assert(entered.actions.drop_last() =~= self.actions);
            },
        }
        entered.lemma_submitted_wf();
    }

    /// Carrying out the legs entered so far leaves a game that can be played.
    pub proof fn lemma_submitted_wf(self)
        requires
            self.wf(),
        ensures
            self.submitted().wf(),
    {
        self.lemma_hypothetical();
    }
}

impl SharmatView {
    /// A turn of several legs reaches the board all at once. With a piece
    /// chosen, a touch asks for the next leg. A leg that is not legal leaves
    /// the game as it was and forgets the legs entered. A legal leg that is
    /// not the last of the turn leaves the game as it was and is entered. The
    /// last leg of the turn puts the board where all the legs of the turn
    /// lead, and passes the turn on.
    pub proof fn lemma_turn_in_legs(self, x: usize, y: usize)
        requires
            self.wf(),
            self.last_touch is Some,
        ensures
            self.touched(x, y).wf(),
            ({
                let (sx, sy) = self.last_touch.unwrap();
                let leg = Action::Movement(sx, sy, x, y);
                let after = self.touched(x, y);
                &&& !self.legal(leg) ==> after.game == self.game && after.actions.len() == 0
                    && after.last_touch is None
                &&& self.legal(leg) && self.actions.len() + 1 < self.legs_of_turn(leg)
                    ==> after.game == self.game && after.actions == self.actions.push(leg)
                    && after.last_touch == Some((x, y))
                &&& self.legal(leg) && self.actions.len() + 1 >= self.legs_of_turn(leg) ==> {
                    &&& played(self.game.board, self.actions.push(leg)) matches Ok(board)
                    &&& after.game.board == board
                    &&& after.game.current_player == self.game.advanced().current_player
                    &&& after.game.players == self.game.players
                    &&& after.game.pieces == self.game.pieces
                    &&& after.actions.len() == 0
                    &&& after.last_touch is None
                }
            }),
    {
        let (sx, sy) = self.last_touch.unwrap();
        let leg = Action::Movement(sx, sy, x, y);
        if self.legal(leg) {
            self.lemma_pushed_wf(leg);
            let entered = SharmatView { actions: self.actions.push(leg), ..self };
            entered.lemma_hypothetical();
        }
    }
}

/// A game in play. It is made from a game that can be played and stays one.
#[derive(Debug)]
pub struct Sharmat {
    game: Game,
    last_touch: Option<(usize, usize)>,
    actions: Vec<Action>,
}

impl View for Sharmat {
    type V = SharmatView;

    closed spec fn view(&self) -> SharmatView {
        SharmatView { game: self.game@, last_touch: self.last_touch, actions: self.actions@ }
    }
}

/// A copy of a list of actions.
fn copy_actions(list: &Vec<Action>) -> (copy: Vec<Action>)
    ensures
        copy@ == list@,
{
    let mut copy: Vec<Action> = Vec::new();
    let mut i: usize = 0;
    while i < list.len()
        invariant
            i <= list.len(),
            copy@ == list@.subrange(0, i as int),
        decreases list.len() - i,
    {
        copy.push(list[i]);
        i += 1;
    }
    assert(copy@ =~= list@);
    copy
}

/// Whether every movement tree of the catalog of the game has a meaning.
fn catalog_resolvable(game: &Game) -> (r: bool)
    ensures
        r == game@.catalog_resolvable(),
{
    let pieces = game.pieces();
    let mut i: usize = 0;
    while i < pieces.len()
        invariant
            i <= pieces.len(),
            crate::game::pieces_of(pieces@) == game@.pieces,
            forall|a: int, b: int|
                0 <= a < i && 0 <= b < game@.pieces[a].movement_type.len() ==> (
                #[trigger] game@.pieces[a].movement_type[b]).resolvable(),
        decreases pieces.len() - i,
    {
        let legs = pieces[i].movement_type();
        assert(game@.pieces[i as int] == pieces[i as int]@);
        let mut j: usize = 0;
        while j < legs.len()
            invariant
                j <= legs.len(),
                i < pieces.len(),
                crate::game::pieces_of(pieces@) == game@.pieces,
                crate::movement::trees(legs@) == game@.pieces[i as int].movement_type,
                forall|b: int|
                    0 <= b < j ==> (#[trigger] game@.pieces[i as int].movement_type[b]).resolvable(),
            decreases legs.len() - j,
        {
            assert(game@.pieces[i as int].movement_type[j as int] == legs[j as int]@);
            if !legs[j].resolvable() {
                return false;
            }
            j += 1;
        }
        i += 1;
    }
    true
}

/// Whether the catalog of the game holds every kind of piece on its board.
fn knows_pieces(game: &Game) -> (r: bool)
    ensures
        r == game@.knows_pieces_of(game@.board),
{
    let board = game.board();
    let kinds = game.pieces().len();
    assert(kinds == game@.pieces.len());
    let width = board.width();
    let height = board.height();
    let mut x: usize = 0;
    while x < width
        invariant
            x <= width,
            width == board@.width,
            height == board@.height,
            board@.wf(),
            board@ == game@.board,
            kinds == game@.pieces.len(),
            forall|i: int, j: int|
                0 <= i < x && 0 <= j < height ==> ((#[trigger] board@.occupant(i, j)) matches Some(
                    (kind, _),
                ) ==> kind < kinds),
        decreases width - x,
    {
        let mut y: usize = 0;
        while y < height
            invariant
                x < width,
                y <= height,
                width == board@.width,
                height == board@.height,
                board@.wf(),
                board@ == game@.board,
                kinds == game@.pieces.len(),
                forall|i: int, j: int|
                    0 <= i < x && 0 <= j < height ==> ((#[trigger] board@.occupant(
                        i,
                        j,
                    )) matches Some((kind, _)) ==> kind < kinds),
                forall|j: int|
                    0 <= j < y ==> ((#[trigger] board@.occupant(x as int, j)) matches Some(
                        (kind, _),
                    ) ==> kind < kinds),
            decreases height - y,
        {
            match board.get(x, y) {
                Ok(Some((kind, _))) => {
                    if kind >= kinds {
                        assert(board@.occupant(x as int, y as int) is Some);
                        return false;
                    }
                },
                _ => {},
            }
            y += 1;
        }
        x += 1;
    }
    assert forall|i: int, j: int| (#[trigger] board@.occupant(i, j)) is Some implies (
    board@.occupant(i, j).unwrap().0) < kinds by {
        assert(board@.cells.dom().contains((i, j)));
        assert(board@.in_bounds(i, j));
    }
    true
}

impl Sharmat {
    #[verifier::type_invariant]
    spec fn inv(self) -> bool {
        self@.wf()
    }

    /// Takes up a game, with nothing entered yet. A game that cannot be
    /// played is refused: one without players, with a movement tree without
    /// meaning in its catalog, or with a piece on its board that the catalog
    /// does not hold.
    pub fn new(game: Game) -> (r: Option<Sharmat>)
        ensures
            match r {
                Some(play) => game@.playable() && play@ == (SharmatView {
                    game: game@,
                    last_touch: None,
                    actions: Seq::empty(),
                }),
                None => !game@.playable(),
            },
    {
        let _ = game.board();
        if game.players().len() == 0 || !catalog_resolvable(&game) || !knows_pieces(&game) {
            return None;
        }
        Some(Sharmat { game, last_touch: None, actions: Vec::new() })
    }

    /// The game as it stands: the legs entered this turn are not on its
    /// board.
    pub fn game(&self) -> (game: &Game)
        ensures
            game@ == self@.game,
            self@.wf(),
    {
        proof {
            use_type_invariant(self);
        }
        &self.game
    }

    /// The square from which the next leg starts, once a piece is chosen.
    pub fn last_touch(&self) -> (square: Option<(usize, usize)>)
        ensures
            square == self@.last_touch,
    {
        self.last_touch
    }

    /// The legs entered so far this turn.
    pub fn actions(&self) -> (legs: &Vec<Action>)
        ensures
            legs@ == self@.actions,
    {
        &self.actions
    }

    /// The player to move.
    fn mover(&self) -> (player: Player)
        ensures
            player == self@.mover(),
            self@.wf(),
    {
        proof {
            use_type_invariant(self);
        }
        match self.game.current_player() {
            Some(player) => *player,
            None => Player::new(PlayerColor::White),
        }
    }

    /// The board as it would be with the legs entered so far carried out,
    /// and the player to move. The legs of a game in play can always be
    /// carried out.
    pub fn get_temporary_state(&self) -> (r: BoardResult<(Board, Player)>)
        ensures
            r matches Ok((board, player)) && board@ == self@.hypothetical() && player
                == self@.mover(),
    {
        let player = self.mover();
        proof {
            self@.lemma_hypothetical();
        }
        self.game.board().do_actions(&player, &self.actions)
    }

    /// The piece that the turn belongs to, for a leg that starts on
    /// `(sx, sy)`.
    fn originating(&self, sx: usize, sy: usize) -> (piece: RawPiece)
        ensures
            piece == self@.originating(sx, sy),
    {
        let board = self.game.board();
        let source = if self.actions.len() == 0 {
            Some((sx, sy))
        } else {
            match self.actions[0] {
                Action::Movement(ox, oy, _, _) => Some((ox, oy)),
                Action::Stay => None,
            }
        };
        match source {
            Some((ox, oy)) => match board.get(ox, oy) {
                Ok(piece) => piece,
                Err(_) => None,
            },
            None => None,
        }
    }

    /// The offsets open to the next leg where it starts on `(sx, sy)`.
    fn leg_moves(&self, sx: usize, sy: usize) -> (moves: Vec<RawMovement>)
        ensures
            offsets(moves@) == self@.leg_moves(sx, sy),
            self@.wf(),
    {
        let none: Vec<RawMovement> = Vec::new();
        assert(offsets(none@) =~= Seq::empty());
        let (board, player) = match self.get_temporary_state() {
            Ok(state) => state,
            Err(_) => {
                return none;
            },
        };
        proof {
            use_type_invariant(self);
            self@.lemma_hypothetical();
            Board::lemma_size(board@.width as int, board@.height as int);
        }
        let color = match board.get(sx, sy) {
            Ok(Some((_, color))) => color,
            _ => {
                return none;
            },
        };
        let kind = match self.originating(sx, sy) {
            Some((kind, _)) => kind,
            None => {
                return none;
            },
        };
        let pieces = self.game.pieces();
        if color != player.color || kind >= pieces.len() {
            return none;
        }
        let legs = pieces[kind].movement_type();
        let leg = self.actions.len();
        if leg >= legs.len() {
            return none;
        }
        assert(self@.game.pieces[kind as int] == pieces[kind as int]@);
        assert(self@.game.pieces[kind as int].movement_type[leg as int] == legs[leg as int]@);
        match legs[leg].flatten(&board, &player, &self.actions, sx, sy) {
            Ok(moves) => moves,
            Err(_) => none,
        }
    }

    /// Whether `action` may be the next leg of the turn. Legs that are not
    /// legal are no errors: the answer is `false`.
    pub fn is_action_legal(&self, action: Action) -> (r: bool)
        ensures
            r == self@.legal(action),
    {
        match action {
            Action::Stay => false,
            Action::Movement(sx, sy, x, y) => {
                let moves = self.leg_moves(sx, sy);
                let ghost wanted = (x - sx, y - sy);
                let mut i: usize = 0;
                while i < moves.len()
                    invariant
                        i <= moves.len(),
                        wanted == (x - sx, y - sy),
                        action == Action::Movement(sx, sy, x, y),
                        offsets(moves@) == self@.leg_moves(sx, sy),
                        forall|j: int| 0 <= j < i ==> (#[trigger] offsets(moves@)[j]) != wanted,
                    decreases moves.len() - i,
                {
                    let d = moves[i];
                    assert(offsets(moves@)[i as int] == (d.0 as int, d.1 as int));
                    if sx as i128 + d.0 as i128 == x as i128 && sy as i128 + d.1 as i128
                        == y as i128 {
                        assert(self@.leg_moves(sx, sy)[i as int] == wanted);
                        return true;
                    }
                    i += 1;
                }
                false
            },
        }
    }

    /// How many legs the turn has that `action` is a leg of.
    fn legs_of_turn(&self, action: Action) -> (legs: usize)
        ensures
            legs == self@.legs_of_turn(action),
    {
        match action {
            Action::Movement(sx, sy, _, _) => match self.originating(sx, sy) {
                Some((kind, _)) => {
                    let pieces = self.game.pieces();
                    if kind < pieces.len() {
                        assert(self@.game.pieces[kind as int] == pieces[kind as int]@);
                        pieces[kind].movement_type().len()
                    } else {
                        0
                    }
                },
                None => 0,
            },
            Action::Stay => 0,
        }
    }

    /// Carries out the legs entered so far, all together, and passes the
    /// turn on. Nothing entered is left.
    pub fn submit_actions(&mut self)
        ensures
            final(self)@ == old(self)@.submitted(),
    {
        proof {
            use_type_invariant(&*self);
            old(self)@.lemma_submitted_wf();
        }
        match self.get_temporary_state() {
            Ok((board, player)) => {
                proof {
                    use_type_invariant(&*self);
                    self@.lemma_hypothetical();
                    assert(self@.game.players.update(
                        self@.game.current_player as int,
                        player,
                    ) =~= self@.game.players);
                }
                self.actions = Vec::new();
                self.last_touch = None;
                self.game.set_board(board);
                self.game.set_current_player(player);
                self.game.next_player();
            },
            Err(_) => {},
        }
    }

    /// Enters `action` as the next leg of the turn. Where it is the last leg
    /// of the turn, the turn is carried out. The leg must be legal.
    pub fn push_action(&mut self, action: Action)
        requires
            old(self)@.legal(action),
        ensures
            final(self)@ == old(self)@.pushed(action),
    {
        proof {
            use_type_invariant(&*self);
            old(self)@.lemma_pushed_wf(action);
        }
        let legs = self.legs_of_turn(action);
        let mut entered = copy_actions(&self.actions);
        entered.push(action);
        self.actions = entered;
        if self.actions.len() >= legs {
            self.submit_actions();
        } else {
            match action {
                Action::Movement(_, _, x, y) => {
                    self.last_touch = Some((x, y));
                },
                Action::Stay => {},
            }
        }
    }

    /// Takes a touch of the square `(x, y)`: it chooses a piece of the player
    /// to move, or asks for the next leg of the piece chosen. A leg that is
    /// not legal is no error: all that was entered this turn is forgotten,
    /// and a piece is to be chosen anew.
    pub fn tile_touched(&mut self, x: usize, y: usize)
        ensures
            final(self)@ == old(self)@.touched(x, y),
    {
        match self.last_touch {
            Some((sx, sy)) => {
                if self.is_action_legal(Action::Movement(sx, sy, x, y)) {
                    self.push_action(Action::Movement(sx, sy, x, y));
                } else {
                    proof {
                        use_type_invariant(&*self);
                    }
                    self.actions = Vec::new();
                    self.last_touch = None;
                }
            },
            None => {
                let player = self.mover();
                match self.game.board().get(x, y) {
                    Ok(Some((_, color))) => {
                        if color == player.color {
                            self.last_touch = Some((x, y));
                        }
                    },
                    _ => {},
                }
            },
        }
    }

    /// Takes what a player did.
    pub fn update(&mut self, message: SharmatMessage)
        ensures
            final(self)@ == old(self)@.updated(message),
    {
        match message {
            SharmatMessage::TileTouched(x, y) => self.tile_touched(x, y),
        }
    }

    /// The squares to show as reachable from `(x, y)`.
    pub fn get_hints_at(&self, x: usize, y: usize, show_opponent: bool) -> (hints: Vec<
        (usize, usize),
    >)
        ensures
            squares(hints@) == self@.hints_at(x, y, show_opponent),
    {
        let none: Vec<RawMovement> = Vec::new();
        assert(offsets(none@) =~= Seq::empty());
        let (board, player) = match self.get_temporary_state() {
            Ok(state) => state,
            Err(_) => {
                return Vec::new();
            },
        };
        proof {
            use_type_invariant(self);
            self@.lemma_hypothetical();
            Board::lemma_size(board@.width as int, board@.height as int);
        }
        let moves = match board.get(x, y) {
            Ok(Some((kind, color))) => {
                assert(board@.cells.dom().contains((x as int, y as int)));
                if color == player.color {
                    let moves = self.leg_moves(x, y);
                    assert(on_board(board@, x as int, y as int, offsets(moves@))) by {
                        assert forall|i: int| 0 <= i < moves.len() implies board@.in_bounds(
                            x + (#[trigger] offsets(moves@)[i]).0,
                            y + offsets(moves@)[i].1,
                        ) by {
                            self@.lemma_leg_moves_on_board(x, y, i);
                        }
                    }
                    moves
                } else {
                    let pieces = self.game.pieces();
                    if show_opponent && kind < pieces.len() && pieces[kind].movement_type().len()
                        > 0 {
                        let legs = pieces[kind].movement_type();
                        assert(self@.game.pieces[kind as int] == pieces[kind as int]@);
                        assert(self@.game.pieces[kind as int].movement_type[0] == legs[0]@);
                        let owner = Player::new(color);
                        match legs[0].flatten(&board, &owner, &self.actions, x, y) {
                            Ok(moves) => {
                                assert(on_board(board@, x as int, y as int, offsets(moves@))) by {
                                    assert forall|i: int| 0 <= i < moves.len() implies board@.in_bounds(
                                        x + (#[trigger] offsets(moves@)[i]).0,
                                        y + offsets(moves@)[i].1,
                                    ) by {
                                        legs[0]@.lemma_moves_on_board(
                                            board@,
                                            owner,
                                            self.actions@,
                                            x as int,
                                            y as int,
                                            i,
                                        );
                                    }
                                }
                                moves
                            },
                            Err(_) => none,
                        }
                    } else {
                        none
                    }
                }
            },
            _ => none,
        };
        let ghost wanted = self@.hints_at(x, y, show_opponent);
        assert(wanted.len() == moves.len());
        assert(on_board(board@, x as int, y as int, offsets(moves@)));
        let mut hints: Vec<(usize, usize)> = Vec::new();
        let mut i: usize = 0;
        while i < moves.len()
            invariant
                i <= moves.len(),
                hints.len() == i,
                wanted.len() == moves.len(),
                board@.width <= isize::MAX,
                board@.height <= isize::MAX,
                on_board(board@, x as int, y as int, offsets(moves@)),
                forall|j: int|
                    0 <= j < moves.len() ==> #[trigger] wanted[j] == (
                        x + offsets(moves@)[j].0,
                        y + offsets(moves@)[j].1,
                    ),
                forall|j: int| 0 <= j < i ==> (#[trigger] hints[j]).0 == wanted[j].0 && hints[j].1
                    == wanted[j].1,
            decreases moves.len() - i,
        {
            let d = moves[i];
            assert(offsets(moves@)[i as int] == (d.0 as int, d.1 as int));
            assert(wanted[i as int] == (x + d.0, y + d.1));
            assert(board@.in_bounds(x + d.0, y + d.1));
            let tx: i128 = x as i128 + d.0 as i128;
            let ty: i128 = y as i128 + d.1 as i128;
            hints.push((tx as usize, ty as usize));
            i += 1;
        }
        assert(squares(hints@) =~= wanted);
        hints
    }

    /// The squares to show as reachable: from the piece chosen, or else from
    /// the square `(x, y)` pointed at, where `usize::MAX` for `x` stands for
    /// pointing at nothing; none at all unless `show` is set.
    pub fn get_hints(&self, x: usize, y: usize, show: bool, show_opponent: bool) -> (hints: Vec<
        (usize, usize),
    >)
        ensures
            squares(hints@) == self@.hints(x, y, show, show_opponent),
    {
        let none: Vec<(usize, usize)> = Vec::new();
        assert(squares(none@) =~= Seq::empty());
        if !show {
            return none;
        }
        match self.last_touch {
            Some((tx, ty)) => self.get_hints_at(tx, ty, show_opponent),
            None => if x == usize::MAX {
                none
            } else {
                self.get_hints_at(x, y, show_opponent)
            },
        }
    }
}

} // verus!

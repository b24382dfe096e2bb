//! A game: the catalog of pieces, the board, the players and whose turn it is.

use vstd::prelude::*;
use crate::action::pieces_below;
use crate::board::{Board, BoardView};
use crate::piece::{Piece, PieceView};
use crate::player::{Player, PlayerColor};

verus! {

/// A game as a mathematical value.
pub struct GameView {
    pub pieces: Seq<PieceView>,
    pub board: BoardView,
    pub players: Seq<Player>,
    /// The place of the player to move in `players`.
    pub current_player: nat,
}

/// The pieces of a list as mathematical values.
pub open spec fn pieces_of(list: Seq<Piece>) -> Seq<PieceView> {
    Seq::new(list.len(), |i: int| list[i]@)
}

/// The pieces that a list of references points to, as mathematical values.
pub open spec fn pieces_behind(list: Seq<&Piece>) -> Seq<PieceView> {
    Seq::new(list.len(), |i: int| list[i]@)
}

impl GameView {
    /// The cursor points at a player, or at the start where there is none.
    pub open spec fn wf(self) -> bool {
        &&& self.board.wf()
        &&& self.current_player < self.players.len() || (self.players.len() == 0
            && self.current_player == 0)
    }

    /// Whether `i` is the first place in the catalog of a piece with this id.
    pub open spec fn first_with_id(self, i: int, id: Seq<char>) -> bool {
        &&& 0 <= i < self.pieces.len()
        &&& self.pieces[i].id == id
        &&& forall|j: int| 0 <= j < i ==> (#[trigger] self.pieces[j]).id != id
    }

    /// Whether `i` is the first place in the catalog of a piece that has
    /// `name` for its id or for an alias.
    pub open spec fn first_answering(self, i: int, name: Seq<char>) -> bool {
        &&& 0 <= i < self.pieces.len()
        &&& self.pieces[i].answers_to(name)
        &&& forall|j: int| 0 <= j < i ==> !(#[trigger] self.pieces[j]).answers_to(name)
    }

    /// Whether every piece on `board` is of a kind that the catalog holds.
    pub open spec fn knows_pieces_of(self, board: BoardView) -> bool {
        pieces_below(board, self.pieces.len())
    }

    /// Whether every movement tree of the catalog has a meaning.
    pub open spec fn catalog_resolvable(self) -> bool {
        forall|i: int, j: int|
            0 <= i < self.pieces.len() && 0 <= j < self.pieces[i].movement_type.len()
                ==> (#[trigger] self.pieces[i].movement_type[j]).resolvable()
    }

    /// Whether the game can be played: somebody is there to move, the catalog
    /// has a meaning, and it holds every kind of piece on the board.
    pub open spec fn playable(self) -> bool {
        &&& self.players.len() > 0
        &&& self.catalog_resolvable()
        &&& self.knows_pieces_of(self.board)
    }

    /// Whether a player of this color takes part.
    pub open spec fn has_player(self, color: PlayerColor) -> bool {
        exists|i: int| 0 <= i < self.players.len() && (#[trigger] self.players[i]).color == color
    }

    /// The player to move, if there is any player.
    pub open spec fn current(self) -> Option<Player> {
        if self.current_player < self.players.len() {
            Some(self.players[self.current_player as int])
        } else {
            None
        }
    }

    /// The game with the turn passed on to the next player, the first after
    /// the last.
    pub open spec fn advanced(self) -> GameView {
        GameView {
            current_player: if self.current_player + 1 >= self.players.len() {
                0
            } else {
                self.current_player + 1
            },
            ..self
        }
    }
}

/// A game: a catalog of pieces, a board, the players in the order of their
/// turns, and whose turn it is.
#[derive(Debug)]
pub struct Game {
    pieces: Vec<Piece>,
    board: Board,
    players: Vec<Player>,
    current_player: usize,
}

impl View for Game {
    type V = GameView;

    closed spec fn view(&self) -> GameView {
        GameView {
            pieces: pieces_of(self.pieces@),
            board: self.board@,
            players: self.players@,
            current_player: self.current_player as nat,
        }
    }
}

impl Game {
    #[verifier::type_invariant]
    spec fn inv(self) -> bool {
        self.current_player < self.players.len() || (self.players.len() == 0 && self.current_player
            == 0)
    }

    /// The catalog: a piece on the board is of the kind at its index here.
    pub fn pieces(&self) -> (pieces: &Vec<Piece>)
        ensures
            pieces_of(pieces@) == self@.pieces,
    {
        &self.pieces
    }

    /// The board of the game.
    pub fn board(&self) -> (board: &Board)
        ensures
            board@ == self@.board,
            self@.wf(),
    {
        proof {
            use_type_invariant(self);
            use_type_invariant(&self.board);
            self.board.lemma_view_wf();
        }
        &self.board
    }

    /// The players, in the order of their turns.
    pub fn players(&self) -> (players: &Vec<Player>)
        ensures
            players@ == self@.players,
    {
        &self.players
    }

    /// The first piece of the catalog with this id.
    pub fn search_piece<'a>(&'a self, id: &str) -> (found: Option<&'a Piece>)
        ensures
            match found {
                Some(piece) => exists|i: int| #[trigger]
                    self@.first_with_id(i, id@) && piece@ == self@.pieces[i],
                None => forall|i: int|
                    0 <= i < self@.pieces.len() ==> (#[trigger] self@.pieces[i]).id != id@,
            },
    {
        let mut i: usize = 0;
        while i < self.pieces.len()
            invariant
                i <= self.pieces.len(),
                forall|j: int| 0 <= j < i ==> (#[trigger] self@.pieces[j]).id != id@,
            decreases self.pieces.len() - i,
        {
            if self.pieces[i].has_id(id) {
                assert(self@.first_with_id(i as int, id@));
                return Some(&self.pieces[i]);
            }
            i += 1;
        }
        None
    }

    /// The pieces of the catalog that have this alias, in the order of the
    /// catalog.
    pub fn search_piece_alias<'a>(&'a self, alias: &str) -> (found: Vec<&'a Piece>)
        ensures
            pieces_behind(found@) == self@.pieces.filter(
                |piece: PieceView| piece.alias.contains(alias@),
            ),
    {
        let ghost wanted = |piece: PieceView| piece.alias.contains(alias@);
        let mut found: Vec<&'a Piece> = Vec::new();
        let mut i: usize = 0;
        while i < self.pieces.len()
            invariant
                i <= self.pieces.len(),
                wanted == |piece: PieceView| piece.alias.contains(alias@),
                pieces_behind(found@) == self@.pieces.take(i as int).filter(wanted),
            decreases self.pieces.len() - i,
        {
            let ghost before = pieces_behind(found@);
            if self.pieces[i].has_alias(alias) {
                found.push(&self.pieces[i]);
                assert(pieces_behind(found@) =~= before.push(self@.pieces[i as int]));
            }
            proof {
                let next = self@.pieces.take(i + 1);
                assert(next.drop_last() =~= self@.pieces.take(i as int));
                assert(next.last() == self@.pieces[i as int]);
                reveal(Seq::filter);
            }
            i += 1;
        }
        assert(self@.pieces.take(i as int) =~= self@.pieces);
        found
    }

    /// Puts a piece of the kind called `piece`, by its id or by an alias, on
    /// `(x, y)` for `color`. `None`, and nothing changed, where the catalog has
    /// no such piece or the board no such square.
    pub fn set(&mut self, x: usize, y: usize, piece: &str, color: PlayerColor) -> (r: Option<()>)
        ensures
            r is Some <==> old(self)@.board.in_bounds(x as int, y as int) && exists|i: int| #[trigger]
                old(self)@.first_answering(i, piece@),
            r is None ==> final(self)@ == old(self)@,
            r is Some ==> exists|i: int| #[trigger]
                old(self)@.first_answering(i, piece@) && final(self)@ == (GameView {
                    board: old(self)@.board.put(x as int, y as int, Some((i as usize, color))),
                    ..old(self)@
                }),
    {
        proof {
            use_type_invariant(&*self);
        }
        let mut i: usize = 0;
        while i < self.pieces.len()
            invariant
                i <= self.pieces.len(),
                *self == *old(self),
                self.inv(),
                forall|j: int| 0 <= j < i ==> !(#[trigger] self@.pieces[j]).answers_to(piece@),
            decreases self.pieces.len() - i,
        {
            if self.pieces[i].has_id(piece) || self.pieces[i].has_alias(piece) {
                assert(self@.first_answering(i as int, piece@));
                assert forall|k: int| #[trigger] old(self)@.first_answering(k, piece@) implies k
                    == i by {}
                return match self.board.set(x, y, Some((i, color))) {
                    Ok(()) => Some(()),
                    Err(_) => None,
                };
            }
            i += 1;
        }
        None
    }

    /// The first player of this color.
    pub fn player(&self, color: PlayerColor) -> (found: Option<&Player>)
        ensures
            found is Some <==> self@.has_player(color),
            found matches Some(player) ==> player.color == color,
    {
        let mut i: usize = 0;
        while i < self.players.len()
            invariant
                i <= self.players.len(),
                forall|j: int| 0 <= j < i ==> (#[trigger] self@.players[j]).color != color,
            decreases self.players.len() - i,
        {
            if self.players[i].color == color {
                return Some(&self.players[i]);
            }
            i += 1;
        }
        None
    }

    /// The player to move.
    pub fn current_player(&self) -> (player: Option<&Player>)
        ensures
            player == match self@.current() {
                Some(p) => Some(&p),
                None => None,
            },
    {
        proof {
            use_type_invariant(self);
        }
        if self.current_player < self.players.len() {
            Some(&self.players[self.current_player])
        } else {
            None
        }
    }

    /// Passes the turn to the next player.
    pub fn next_player(&mut self)
        ensures
            final(self)@ == old(self)@.advanced(),
        no_unwind
    {
        proof {
            use_type_invariant(&*self);
        }
        if self.current_player + 1 >= self.players.len() {
            self.current_player = 0;
        } else {
            self.current_player = self.current_player + 1;
        }
    }

    /// Puts `board` in place of the board of the game.
    pub fn set_board(&mut self, board: Board)
        ensures
            final(self)@ == (GameView { board: board@, ..old(self)@ }),
        no_unwind
    {
        proof {
            use_type_invariant(&*self);
        }
        self.board = board;
    }

    /// Puts `player` in place of the player to move, in the same place of the
    /// turn order. Without players nothing changes.
    pub fn set_current_player(&mut self, player: Player)
        ensures
            final(self)@ == (GameView {
                players: if old(self)@.current_player < old(self)@.players.len() {
                    old(self)@.players.update(old(self)@.current_player as int, player)
                } else {
                    old(self)@.players
                },
                ..old(self)@
            }),
        no_unwind
    {
        proof {
            use_type_invariant(&*self);
        }
        if self.current_player < self.players.len() {
            self.players[self.current_player] = player;
        }
    }
}

/// Assembles a [`Game`] step by step.
pub struct GameBuilder {
    game_pieces: Vec<Piece>,
    game_board: Board,
    game_players: Vec<Player>,
}

impl View for GameBuilder {
    type V = GameView;

    /// The game that `build` would give.
    closed spec fn view(&self) -> GameView {
        GameView {
            pieces: pieces_of(self.game_pieces@),
            board: self.game_board@,
            players: self.game_players@,
            current_player: 0,
        }
    }
}

impl Default for GameBuilder {
    /// No pieces, no players, and the empty board of one square.
    fn default() -> (builder: GameBuilder)
        ensures
            builder@ == (GameView {
                pieces: Seq::empty(),
                board: BoardView::empty(1, 1),
                players: Seq::empty(),
                current_player: 0,
            }),
    {
        let builder = GameBuilder {
            game_pieces: Vec::new(),
            game_board: Board::new(1, 1),
            game_players: Vec::new(),
        };
        assert(builder@.pieces =~= Seq::empty());
        builder
    }
}

impl GameBuilder {
    /// As `default`.
    pub fn new() -> (builder: GameBuilder)
        ensures
            builder@ == (GameView {
                pieces: Seq::empty(),
                board: BoardView::empty(1, 1),
                players: Seq::empty(),
                current_player: 0,
            }),
    {
        Self::default()
    }

    /// Sets the board, in place of the one set before.
    pub fn board(self, board: Board) -> (builder: GameBuilder)
        ensures
            builder@ == (GameView { board: board@, ..self@ }),
    {
        let mut builder = self;
        builder.game_board = board;
        builder
    }

    /// Adds a piece at the end of the catalog.
    pub fn piece(self, piece: Piece) -> (builder: GameBuilder)
        ensures
            builder@ == (GameView { pieces: self@.pieces.push(piece@), ..self@ }),
    {
        let mut builder = self;
        builder.game_pieces.push(piece);
        assert(builder@.pieces =~= self@.pieces.push(piece@));
        builder
    }

    /// Adds pieces at the end of the catalog, in their order.
    pub fn pieces(self, pieces: Vec<Piece>) -> (builder: GameBuilder)
        ensures
            builder@ == (GameView { pieces: self@.pieces + pieces_of(pieces@), ..self@ }),
    {
        let mut builder = self;
        let mut pieces = pieces;
        let ghost added = pieces@;
        builder.game_pieces.append(&mut pieces);
        assert(builder@.pieces =~= self@.pieces + pieces_of(added));
        builder
    }

    /// Adds a player at the end of the turn order.
    pub fn player(self, player: Player) -> (builder: GameBuilder)
        ensures
            builder@ == (GameView { players: self@.players.push(player), ..self@ }),
    {
        let mut builder = self;
        builder.game_players.push(player);
        builder
    }

    /// The game, with the first player to move.
    pub fn build(self) -> (game: Game)
        ensures
            game@ == self@,
    {
        Game {
            board: self.game_board,
            pieces: self.game_pieces,
            players: self.game_players,
            current_player: 0,
        }
    }
}

} // verus!

//! How pieces move: movement trees, the conditions that guard them, and the
//! evaluation of a tree into the offsets a piece can move by.

use vstd::prelude::*;
pub use crate::action::Action;
use crate::board::{Board, BoardView, RawPiece};
use crate::moves::{
    all_hold, can_land, lemma_filter_push, offsets, ray, slides, undirected_offsets,
};
use crate::player::{Player, PlayerColor};

verus! {

/// A rule of the caller's own, for what the other conditions cannot say.
///
/// It is asked about one offset at a time and is given all it may look at:
/// the board, the player, the legs already entered this turn, the origin
/// `(x, y)` and the offset `(dx, dy)`. A rule answers every question, and
/// answers from these alone: the same question gets the same answer.
pub trait CustomCondition {
    fn validate(
        &self,
        board: &Board,
        player: &Player,
        previous_actions: &Vec<Action>,
        x: usize,
        y: usize,
        dx: isize,
        dy: isize,
    ) -> bool;
}

/// A custom rule as it stands in a movement tree.
#[derive(Clone, Copy)]
pub struct CustomRule(pub &'static dyn CustomCondition);

/// What a custom rule answers to a question.
pub uninterp spec fn custom_verdict(
    rule: CustomRule,
    board: BoardView,
    player: Player,
    previous_actions: Seq<Action>,
    x: int,
    y: int,
    dx: int,
    dy: int,
) -> bool;

/// Puts the question to the rule, through `CustomCondition::validate` as the
/// caller implemented it. The answer is taken to depend on the question
/// alone, which is what the trait asks of a rule; nothing else is claimed.
#[verifier::external_body]
fn ask_custom(
    rule: CustomRule,
    board: &Board,
    player: &Player,
    previous_actions: &Vec<Action>,
    x: usize,
    y: usize,
    dx: isize,
    dy: isize,
) -> (r: bool)
    ensures
        r == custom_verdict(
            rule,
            board@,
            *player,
            previous_actions@,
            x as int,
            y as int,
            dx as int,
            dy as int,
        ),
{
    rule.0.validate(board, player, previous_actions, x, y, dx, dy)
}

/// A condition on one offset of a movement.
#[derive(Clone, Copy, Debug)]
pub enum MovementCondition {
    /// The target square is occupied.
    Capture,
    /// The target square is empty.
    NoCapture,
    /// The player is white.
    AsWhite,
    /// The player is black.
    AsBlack,
    /// A rule of the caller's own.
    Custom(CustomRule),
}

/// An offset from a square: so many columns and so many rows.
pub type RawMovement = (isize, isize);

/// How a piece may move, as a tree.
#[derive(Debug)]
pub enum MovementType {
    /// No movement at all.
    Stay,
    /// `Undirected(a, b)`: `a` squares along one axis and `b` along the other,
    /// in any direction. `Undirected(2, 1)` is the knight.
    Undirected(usize, usize),
    /// `Directed(dx, dy)`: from `(x, y)` to `(x + dx, y + dy)` and nowhere else.
    Directed(isize, isize),
    /// The inner movement repeated any number of times in a straight line, up
    /// to the first piece in the way. A step of the inner movement that leads
    /// nowhere is not repeated.
    RangeAny(Box<MovementType>),
    /// As `RangeAny`, for at most so many repetitions.
    Range(Box<MovementType>, usize),
    /// Any one of the listed movements.
    Union(Vec<MovementType>),
    /// The inner movement, where every listed condition holds.
    Condition(Box<MovementType>, Vec<MovementCondition>),
}

/// A movement tree as a mathematical value.
pub enum MoveTree {
    Stay,
    Undirected(int, int),
    Directed(int, int),
    RangeAny(Box<MoveTree>),
    Range(Box<MoveTree>, int),
    Union(Seq<MoveTree>),
    Condition(Box<MoveTree>, Seq<MovementCondition>),
}

impl MovementType {
    /// The tree as a mathematical value.
    pub open spec fn tree(self) -> MoveTree
        decreases self,
    {
        match self {
            MovementType::Stay => MoveTree::Stay,
            MovementType::Undirected(a, b) => MoveTree::Undirected(a as int, b as int),
            MovementType::Directed(dx, dy) => MoveTree::Directed(dx as int, dy as int),
            MovementType::RangeAny(inner) => MoveTree::RangeAny(Box::new((*inner).tree())),
            MovementType::Range(inner, max) => MoveTree::Range(
                Box::new((*inner).tree()),
                max as int,
            ),
            MovementType::Union(moves) => MoveTree::Union(
                Seq::new(
                    moves.len() as nat,
                    |i: int|
                        if 0 <= i < moves.len() {
                            moves[i].tree()
                        } else {
                            MoveTree::Stay
                        },
                ),
            ),
            MovementType::Condition(inner, tags) => MoveTree::Condition(
                Box::new((*inner).tree()),
                tags@,
            ),
        }
    }
}

impl View for MovementType {
    type V = MoveTree;

    open spec fn view(&self) -> MoveTree {
        self.tree()
    }
}

/// The views of a list of movement trees, one for one.
pub open spec fn trees(moves: Seq<MovementType>) -> Seq<MoveTree> {
    Seq::new(moves.len(), |i: int| moves[i]@)
}

impl Clone for MovementType {
    fn clone(&self) -> (copy: MovementType)
        ensures
            copy@ == self@,
        decreases *self,
    {
        match self {
            MovementType::Stay => MovementType::Stay,
            MovementType::Undirected(a, b) => MovementType::Undirected(*a, *b),
            MovementType::Directed(dx, dy) => MovementType::Directed(*dx, *dy),
            MovementType::RangeAny(inner) => MovementType::RangeAny(Box::new((**inner).clone())),
            MovementType::Range(inner, max) => MovementType::Range(
                Box::new((**inner).clone()),
                *max,
            ),
            MovementType::Union(moves) => {
                let mut copies: Vec<MovementType> = Vec::new();
                let mut i: usize = 0;
                while i < moves.len()
                    invariant
                        i <= moves.len(),
                        copies.len() == i,
                        *self == MovementType::Union(*moves),
                        forall|j: int| 0 <= j < i ==> (#[trigger] copies[j])@ == moves[j]@,
                    decreases moves.len() - i,
                {
                    proof {
                        assert(self->Union_0 == *moves);
                        assert(decreases_to!(*self => self->Union_0));
                        assert(decreases_to!(*moves => moves[i as int]));
                    }
                    let copy = moves[i].clone();
                    copies.push(copy);
                    i += 1;
                }
                let copy = MovementType::Union(copies);
                assert(copy@->Union_0 =~= self@->Union_0);
                copy
            },
            MovementType::Condition(inner, tags) => {
                let mut copies: Vec<MovementCondition> = Vec::new();
                let mut i: usize = 0;
                while i < tags.len()
                    invariant
                        i <= tags.len(),
                        copies@ == tags@.subrange(0, i as int),
                    decreases tags.len() - i,
                {
                    copies.push(tags[i]);
                    i += 1;
                }
                assert(copies@ =~= tags@);
                MovementType::Condition(Box::new((**inner).clone()), copies)
            },
        }
    }
}

impl MovementCondition {
    /// Whether the condition holds of the offset `(dx, dy)` from `(x, y)`.
    pub open spec fn holds(
        self,
        board: BoardView,
        player: Player,
        previous_actions: Seq<Action>,
        x: int,
        y: int,
        dx: int,
        dy: int,
    ) -> bool {
        match self {
            MovementCondition::Capture => board.occupant(x + dx, y + dy) is Some,
            MovementCondition::NoCapture => board.occupant(x + dx, y + dy) is None,
            MovementCondition::AsWhite => player.color == PlayerColor::White,
            MovementCondition::AsBlack => player.color == PlayerColor::Black,
            MovementCondition::Custom(rule) => custom_verdict(
                rule,
                board,
                player,
                previous_actions,
                x,
                y,
                dx,
                dy,
            ),
        }
    }

    /// Whether the condition holds of the offset `(dx, dy)` from `(x, y)`.
    /// Outside the board nothing stands, so nothing is captured there.
    pub fn validate(
        &self,
        board: &Board,
        player: &Player,
        previous_actions: &Vec<Action>,
        x: usize,
        y: usize,
        dx: isize,
        dy: isize,
    ) -> (r: bool)
        ensures
            r == self.holds(
                board@,
                *player,
                previous_actions@,
                x as int,
                y as int,
                dx as int,
                dy as int,
            ),
    {
        match *self {
            MovementCondition::Capture => occupant_at(board, x, y, dx, dy).is_some(),
            MovementCondition::NoCapture => occupant_at(board, x, y, dx, dy).is_none(),
            MovementCondition::AsWhite => player.color.white(),
            MovementCondition::AsBlack => player.color.black(),
            MovementCondition::Custom(rule) => {
                ask_custom(rule, board, player, previous_actions, x, y, dx, dy)
            },
        }
    }
}

/// The square at the offset `(dx, dy)` from `(x, y)`, where that is a square
/// of the board.
fn target(board: &Board, x: usize, y: usize, dx: isize, dy: isize) -> (r: Option<(usize, usize)>)
    ensures
        board@.wf(),
        match r {
            Some((tx, ty)) => board@.in_bounds(x + dx, y + dy) && tx == x + dx && ty == y + dy,
            None => !board@.in_bounds(x + dx, y + dy),
        },
{
    let width = board.width();
    let height = board.height();
    let tx: i128 = x as i128 + dx as i128;
    let ty: i128 = y as i128 + dy as i128;
    if 0 <= tx && tx < width as i128 && 0 <= ty && ty < height as i128 {
        Some((tx as usize, ty as usize))
    } else {
        None
    }
}

/// What stands at the offset `(dx, dy)` from `(x, y)`.
fn occupant_at(board: &Board, x: usize, y: usize, dx: isize, dy: isize) -> (r: RawPiece)
    ensures
        board@.wf(),
        r == board@.occupant(x + dx, y + dy),
{
    match target(board, x, y, dx, dy) {
        Some((tx, ty)) => match board.get(tx, ty) {
            Ok(piece) => piece,
            Err(_) => None,
        },
        None => {
            assert(!board@.cells.dom().contains((x + dx, y + dy)));
            None
        },
    }
}

/// Why a movement tree has no meaning.
#[derive(Clone, Copy, Debug, PartialEq, Eq, Structural)]
pub enum FlattenError {
    /// A `Range` or `RangeAny` stands over another one: what is repeated
    /// must be single steps.
    Unresolvable,
}

/// Adds `(dx, dy)` to the offsets where a piece of `color` may land there
/// from `(x, y)`.
fn push_landing(
    out: &mut Vec<RawMovement>,
    board: &Board,
    color: PlayerColor,
    x: usize,
    y: usize,
    dx: i128,
    dy: i128,
)
    requires
        x <= isize::MAX,
        y <= isize::MAX,
        -(usize::MAX as int) <= dx <= usize::MAX,
        -(usize::MAX as int) <= dy <= usize::MAX,
    ensures
        offsets(final(out)@) == if can_land(board@, color, x + dx, y + dy) {
            offsets(old(out)@).push((dx as int, dy as int))
        } else {
            offsets(old(out)@)
        },
{
    let width = board.width();
    let height = board.height();
    proof {
        Board::lemma_size(board@.width as int, board@.height as int);
    }
    let tx: i128 = x as i128 + dx;
    let ty: i128 = y as i128 + dy;
    if 0 <= tx && tx < width as i128 && 0 <= ty && ty < height as i128 {
        let free = match board.get(tx as usize, ty as usize) {
            Ok(Some((_, owner))) => owner != color,
            _ => true,
        };
        if free {
            out.push((dx as isize, dy as isize));
            assert(offsets(out@) =~= offsets(old(out)@).push((dx as int, dy as int)));
        }
    }
}

/// Adds the slide from `(x, y)` in steps of `(dx, dy)`, of at most `max`
/// steps, to the offsets.
fn push_ray(
    out: &mut Vec<RawMovement>,
    board: &Board,
    color: PlayerColor,
    x: usize,
    y: usize,
    dx: isize,
    dy: isize,
    max: usize,
)
    requires
        x <= isize::MAX,
        y <= isize::MAX,
    ensures
        offsets(final(out)@) == offsets(old(out)@) + ray(
            board@,
            color,
            x as int,
            y as int,
            dx as int,
            dy as int,
            1,
            max as int,
        ),
{
    let width = board.width();
    let height = board.height();
    proof {
        Board::lemma_size(board@.width as int, board@.height as int);
    }
    let ghost whole = ray(board@, color, x as int, y as int, dx as int, dy as int, 1, max as int);
    // The square reached so far, and the steps taken to it.
    let mut px: usize = x;
    let mut py: usize = y;
    let mut steps: usize = 0;
    let mut open = true;
    assert(offsets(out@) + whole =~= offsets(old(out)@) + whole);
    while open && steps < max
        invariant
            x <= isize::MAX,
            y <= isize::MAX,
            board@.wf(),
            width == board@.width,
            height == board@.height,
            width <= isize::MAX,
            height <= isize::MAX,
            steps <= max,
            px == x + steps * dx,
            py == y + steps * dy,
            whole == ray(board@, color, x as int, y as int, dx as int, dy as int, 1, max as int),
            open ==> offsets(out@) + ray(
                board@,
                color,
                x as int,
                y as int,
                dx as int,
                dy as int,
                steps + 1,
                max as int,
            ) == offsets(old(out)@) + whole,
            !open ==> offsets(out@) == offsets(old(out)@) + whole,
        decreases (if open { 1int } else { 0int }), max - steps,
    {
        let ghost k = steps + 1;
        let ghost rest = ray(board@, color, x as int, y as int, dx as int, dy as int, k, max as int);
        let ghost before = offsets(out@);
        let tx: i128 = px as i128 + dx as i128;
        let ty: i128 = py as i128 + dy as i128;
        proof {
            assert(k * dx == steps * dx + dx) by (nonlinear_arith)
                requires
                    k == steps + 1,
            ;
            assert(k * dy == steps * dy + dy) by (nonlinear_arith)
                requires
                    k == steps + 1,
            ;
            assert(tx == x + k * dx);
            assert(ty == y + k * dy);
        }
        if 0 <= tx && tx < width as i128 && 0 <= ty && ty < height as i128 {
            let delta: RawMovement = ((tx - x as i128) as isize, (ty - y as i128) as isize);
            assert(delta.0 == k * dx && delta.1 == k * dy);
            match board.get(tx as usize, ty as usize) {
                Ok(Some((_, owner))) => {
                    if owner != color {
                        out.push(delta);
                        assert(offsets(out@) =~= before + rest);
                    } else {
                        assert(before =~= before + rest);
                    }
                    open = false;
                },
                _ => {
                    out.push(delta);
                    px = tx as usize;
                    py = ty as usize;
                    steps = steps + 1;
                    assert(offsets(out@) + ray(
                        board@,
                        color,
                        x as int,
                        y as int,
                        dx as int,
                        dy as int,
                        k + 1,
                        max as int,
                    ) =~= before + rest);
                },
            }
        } else {
            assert(before =~= before + rest);
            open = false;
        }
    }
    proof {
        if open {
            assert(offsets(out@) =~= offsets(out@) + Seq::<(int, int)>::empty());
        }
    }
}

/// Whether every one of the conditions holds of the offset `(dx, dy)` from
/// `(x, y)`.
fn holds_all(
    tags: &Vec<MovementCondition>,
    board: &Board,
    player: &Player,
    previous_actions: &Vec<Action>,
    x: usize,
    y: usize,
    dx: isize,
    dy: isize,
) -> (r: bool)
    ensures
        r == all_hold(
            tags@,
            board@,
            *player,
            previous_actions@,
            x as int,
            y as int,
            dx as int,
            dy as int,
        ),
{
    let mut i: usize = 0;
    while i < tags.len()
        invariant
            i <= tags.len(),
            forall|j: int|
                0 <= j < i ==> (#[trigger] tags[j]).holds(
                    board@,
                    *player,
                    previous_actions@,
                    x as int,
                    y as int,
                    dx as int,
                    dy as int,
                ),
        decreases tags.len() - i,
    {
        if !tags[i].validate(board, player, previous_actions, x, y, dx, dy) {
            return false;
        }
        i += 1;
    }
    true
}

impl MovementType {
    /// What the view of a union is made of.
    proof fn lemma_union_view(self)
        requires
            self is Union,
        ensures
            self@ is Union,
            self@->Union_0 == trees(self->Union_0@),
    {
        assert(self@->Union_0 =~= trees(self->Union_0@));
    }

    /// Whether the tree is made of single steps.
    fn is_step(&self) -> (r: bool)
        ensures
            r == self@.is_step(),
        decreases self,
    {
        match self {
            MovementType::Stay => true,
            MovementType::Undirected(_, _) => true,
            MovementType::Directed(_, _) => true,
            MovementType::RangeAny(_) => false,
            MovementType::Range(_, _) => false,
            MovementType::Union(moves) => {
                proof {
                    self.lemma_union_view();
                }
                let mut i: usize = 0;
                while i < moves.len()
                    invariant
                        i <= moves.len(),
                        *self == MovementType::Union(*moves),
                        self@ is Union,
                        self@->Union_0 == trees(moves@),
                        forall|j: int| 0 <= j < i ==> (#[trigger] trees(moves@)[j]).is_step(),
                    decreases moves.len() - i,
                {
                    proof {
                        assert(self->Union_0 == *moves);
                        assert(decreases_to!(*self => self->Union_0));
                        assert(decreases_to!(*moves => moves[i as int]));
                    }
                    if !moves[i].is_step() {
                        assert(!trees(moves@)[i as int].is_step());
                        return false;
                    }
                    i += 1;
                }
                true
            },
            MovementType::Condition(inner, _) => inner.is_step(),
        }
    }

    /// Whether the tree has a meaning, that is, whether `flatten` accepts it.
    /// A catalog is held to this once, when it is put together.
    pub fn resolvable(&self) -> (r: bool)
        ensures
            r == self@.resolvable(),
        decreases self,
    {
        match self {
            MovementType::Stay => true,
            MovementType::Undirected(_, _) => true,
            MovementType::Directed(_, _) => true,
            MovementType::RangeAny(inner) => inner.is_step(),
            MovementType::Range(inner, _) => inner.is_step(),
            MovementType::Union(moves) => {
                proof {
                    self.lemma_union_view();
                }
                let mut i: usize = 0;
                while i < moves.len()
                    invariant
                        i <= moves.len(),
                        *self == MovementType::Union(*moves),
                        self@ is Union,
                        self@->Union_0 == trees(moves@),
                        forall|j: int| 0 <= j < i ==> (#[trigger] trees(moves@)[j]).resolvable(),
                    decreases moves.len() - i,
                {
                    proof {
                        assert(self->Union_0 == *moves);
                        assert(decreases_to!(*self => self->Union_0));
                        assert(decreases_to!(*moves => moves[i as int]));
                    }
                    if !moves[i].resolvable() {
                        assert(!trees(moves@)[i as int].resolvable());
                        return false;
                    }
                    i += 1;
                }
                true
            },
            MovementType::Condition(inner, _) => inner.resolvable(),
        }
    }

    /// The offsets by which a piece of `player` on `(x, y)` may move under
    /// this tree, on this board and after the legs already entered this turn.
    ///
    /// The order of the offsets is of no account, and an offset may stand
    /// more than once. A tree without meaning is refused, whatever the board.
    /// The origin must be a coordinate that an offset can be counted from.
    pub fn flatten(
        &self,
        board: &Board,
        player: &Player,
        previous_actions: &Vec<Action>,
        x: usize,
        y: usize,
    ) -> (r: Result<Vec<RawMovement>, FlattenError>)
        requires
            x <= isize::MAX,
            y <= isize::MAX,
        ensures
            match r {
                Ok(moves) => self@.resolvable() && offsets(moves@) == self@.moves(
                    board@,
                    *player,
                    previous_actions@,
                    x as int,
                    y as int,
                ),
                Err(e) => !self@.resolvable() && e == FlattenError::Unresolvable,
            },
        decreases self,
    {
        let ghost b = board@;
        let ghost legs = previous_actions@;
        match self {
            MovementType::Stay => {
                let out: Vec<RawMovement> = Vec::new();
                assert(offsets(out@) =~= Seq::empty());
                Ok(out)
            },
            MovementType::Undirected(a, b2) => {
                let a: i128 = *a as i128;
                let b2: i128 = *b2 as i128;
                let mut out: Vec<RawMovement> = Vec::new();
                let ghost keep = |d: (int, int)| can_land(b, player.color, x + d.0, y + d.1);
                let ghost none = Seq::<(int, int)>::empty();
                assert(offsets(out@) =~= none.filter(keep)) by {
                    reveal(Seq::filter);
                }
                push_landing(&mut out, board, player.color, x, y, a, b2);
                proof {
                    lemma_filter_push(none, (a as int, b2 as int), keep);
                }
                push_landing(&mut out, board, player.color, x, y, -a, b2);
                proof {
                    lemma_filter_push(seq![(a as int, b2 as int)], (-a as int, b2 as int), keep);
                    assert(none.push((a as int, b2 as int)) =~= seq![(a as int, b2 as int)]);
                }
                push_landing(&mut out, board, player.color, x, y, a, -b2);
                proof {
                    let s2 = seq![(a as int, b2 as int), (-a as int, b2 as int)];
                    assert(seq![(a as int, b2 as int)].push((-a as int, b2 as int)) =~= s2);
                    lemma_filter_push(s2, (a as int, -b2 as int), keep);
                }
                push_landing(&mut out, board, player.color, x, y, -a, -b2);
                let ghost s4 = seq![
                    (a as int, b2 as int),
                    (-a as int, b2 as int),
                    (a as int, -b2 as int),
                    (-a as int, -b2 as int),
                ];
                proof {
                    let s2 = seq![(a as int, b2 as int), (-a as int, b2 as int)];
                    let s3 = seq![
                        (a as int, b2 as int),
                        (-a as int, b2 as int),
                        (a as int, -b2 as int),
                    ];
                    assert(s2.push((a as int, -b2 as int)) =~= s3);
                    lemma_filter_push(s3, (-a as int, -b2 as int), keep);
                    assert(s3.push((-a as int, -b2 as int)) =~= s4);
                    assert(offsets(out@) == s4.filter(keep));
                }
                if a != b2 {
                    push_landing(&mut out, board, player.color, x, y, b2, a);
                    push_landing(&mut out, board, player.color, x, y, -b2, a);
                    push_landing(&mut out, board, player.color, x, y, b2, -a);
                    push_landing(&mut out, board, player.color, x, y, -b2, -a);
                    proof {
                        let s5 = s4.push((b2 as int, a as int));
                        let s6 = s5.push((-b2 as int, a as int));
                        let s7 = s6.push((b2 as int, -a as int));
                        let s8 = s7.push((-b2 as int, -a as int));
                        lemma_filter_push(s4, (b2 as int, a as int), keep);
                        lemma_filter_push(s5, (-b2 as int, a as int), keep);
                        lemma_filter_push(s6, (b2 as int, -a as int), keep);
                        lemma_filter_push(s7, (-b2 as int, -a as int), keep);
                        assert(s8 =~= undirected_offsets(a as int, b2 as int));
                    }
                } else {
                    assert(s4 =~= undirected_offsets(a as int, b2 as int));
                }
                Ok(out)
            },
            MovementType::Directed(dx, dy) => {
                let mut out: Vec<RawMovement> = Vec::new();
                assert(offsets(out@) =~= Seq::empty());
                if target(board, x, y, *dx, *dy).is_some() {
                    out.push((*dx, *dy));
                    assert(offsets(out@) =~= seq![(*dx as int, *dy as int)]);
                }
                Ok(out)
            },
            MovementType::RangeAny(inner) => {
                if !inner.is_step() {
                    return Err(FlattenError::Unresolvable);
                }
                proof {
                    inner@.lemma_step_resolvable();
                }
                let width = board.width();
                let height = board.height();
                let max = if width >= height {
                    width
                } else {
                    height
                };
                match inner.flatten(board, player, previous_actions, x, y) {
                    Ok(steps) => Ok(slide_all(&steps, board, player.color, x, y, max)),
                    Err(e) => Err(e),
                }
            },
            MovementType::Range(inner, max) => {
                if !inner.is_step() {
                    return Err(FlattenError::Unresolvable);
                }
                proof {
                    inner@.lemma_step_resolvable();
                }
                match inner.flatten(board, player, previous_actions, x, y) {
                    Ok(steps) => Ok(slide_all(&steps, board, player.color, x, y, *max)),
                    Err(e) => Err(e),
                }
            },
            MovementType::Union(moves) => {
                proof {
                    self.lemma_union_view();
                }
                let ghost list = trees(moves@);
                let mut out: Vec<RawMovement> = Vec::new();
                assert(offsets(out@) =~= Seq::empty());
                let mut i: usize = 0;
                while i < moves.len()
                    invariant
                        i <= moves.len(),
                        x <= isize::MAX,
                        y <= isize::MAX,
                        *self == MovementType::Union(*moves),
                        self@ is Union,
                        self@->Union_0 == list,
                        list == trees(moves@),
                        b == board@,
                        legs == previous_actions@,
                        forall|j: int| 0 <= j < i ==> (#[trigger] list[j]).resolvable(),
                        offsets(out@) == MoveTree::moves_of_first(
                            list,
                            i as nat,
                            b,
                            *player,
                            legs,
                            x as int,
                            y as int,
                        ),
                    decreases moves.len() - i,
                {
                    proof {
                        assert(self->Union_0 == *moves);
                        assert(decreases_to!(*self => self->Union_0));
                        assert(decreases_to!(*moves => moves[i as int]));
                    }
                    let ghost before = offsets(out@);
                    match moves[i].flatten(board, player, previous_actions, x, y) {
                        Ok(more) => {
                            let ghost added = offsets(more@);
                            let mut more = more;
                            out.append(&mut more);
                            assert(offsets(out@) =~= before + added);
                            assert(list[i as int] == moves[i as int]@);
                        },
                        Err(e) => {
                            assert(!list[i as int].resolvable());
                            return Err(e);
                        },
                    }
                    i += 1;
                }
                Ok(out)
            },
            MovementType::Condition(inner, tags) => {
                match inner.flatten(board, player, previous_actions, x, y) {
                    Ok(all) => {
                        let ghost keep = |d: (int, int)|
                            all_hold(tags@, b, *player, legs, x as int, y as int, d.0, d.1);
                        let mut out: Vec<RawMovement> = Vec::new();
                        assert(offsets(out@) =~= offsets(all@).take(0).filter(keep)) by {
                            reveal(Seq::filter);
                        }
                        let mut i: usize = 0;
                        while i < all.len()
                            invariant
                                i <= all.len(),
                                b == board@,
                                legs == previous_actions@,
                                keep == |d: (int, int)|
                                    all_hold(tags@, b, *player, legs, x as int, y as int, d.0, d.1),
                                offsets(out@) == offsets(all@).take(i as int).filter(keep),
                            decreases all.len() - i,
                        {
                            let ghost before = offsets(out@);
                            let d = all[i];
                            proof {
                                lemma_filter_push(
                                    offsets(all@).take(i as int),
                                    (d.0 as int, d.1 as int),
                                    keep,
                                );
                                assert(offsets(all@).take(i as int).push((d.0 as int, d.1 as int))
                                    =~= offsets(all@).take(i + 1));
                            }
                            if holds_all(tags, board, player, previous_actions, x, y, d.0, d.1) {
                                out.push(d);
                                assert(offsets(out@) =~= before.push((d.0 as int, d.1 as int)));
                            }
                            i += 1;
                        }
                        assert(offsets(all@).take(i as int) =~= offsets(all@));
                        Ok(out)
                    },
                    Err(e) => Err(e),
                }
            },
        }
    }
}

/// Whether the offset that leads nowhere is among the offsets.
fn has_nowhere(list: &Vec<RawMovement>) -> (r: bool)
    ensures
        r == offsets(list@).contains((0int, 0int)),
{
    let mut i: usize = 0;
    while i < list.len()
        invariant
            i <= list.len(),
            forall|j: int| 0 <= j < i ==> (#[trigger] offsets(list@)[j]) != (0int, 0int),
        decreases list.len() - i,
    {
        let d = list[i];
        assert(offsets(list@)[i as int] == (d.0 as int, d.1 as int));
        if d.0 == 0 && d.1 == 0 {
            return true;
        }
        i += 1;
    }
    false
}

/// The slides in each of the given steps, one after another.
fn slide_all(
    steps: &Vec<RawMovement>,
    board: &Board,
    color: PlayerColor,
    x: usize,
    y: usize,
    max: usize,
) -> (out: Vec<RawMovement>)
    requires
        x <= isize::MAX,
        y <= isize::MAX,
    ensures
        offsets(out@) == slides(board@, color, x as int, y as int, offsets(steps@), max as int),
{
    let mut out: Vec<RawMovement> = Vec::new();
    assert(offsets(out@) =~= Seq::empty());
    let mut i: usize = 0;
    while i < steps.len()
        invariant
            i <= steps.len(),
            x <= isize::MAX,
            y <= isize::MAX,
            offsets(out@) == slides(
                board@,
                color,
                x as int,
                y as int,
                offsets(steps@).take(i as int),
                max as int,
            ),
        decreases steps.len() - i,
    {
        let step = steps[i];
        proof {
            let next = offsets(steps@).take(i + 1);
            assert(next.drop_last() =~= offsets(steps@).take(i as int));
            assert(next.last() == (step.0 as int, step.1 as int));
        }
        if step.0 == 0 && step.1 == 0 {
            if !has_nowhere(&out) {
                let ghost before = offsets(out@);
                out.push(step);
                assert(offsets(out@) =~= before.push((0int, 0int)));
            }
        } else {
            push_ray(&mut out, board, color, x, y, step.0, step.1, max);
        }
        i += 1;
    }
    assert(offsets(steps@).take(i as int) =~= offsets(steps@));
    out
}

} // verus!

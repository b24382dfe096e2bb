//! What a movement tree means: the offsets it gives on a board, as a
//! mathematical function, and what holds of them.

use vstd::prelude::*;
use crate::action::Action;
use crate::board::BoardView;
use crate::movement::{MoveTree, MovementCondition, RawMovement};
use crate::player::{Player, PlayerColor};

verus! {

/// Whether a piece of `color` may land on `(x, y)`: the square is on the
/// board and is empty or held by the other side.
pub open spec fn can_land(board: BoardView, color: PlayerColor, x: int, y: int) -> bool {
    board.in_bounds(x, y) && match board.occupant(x, y) {
        None => true,
        Some((_, owner)) => owner != color,
    }
}

/// The offsets that `Undirected(a, b)` stands for, before the board is looked
/// at: `(a, b)` under every change of sign and, where `a` and `b` differ,
/// with the two exchanged as well.
pub open spec fn undirected_offsets(a: int, b: int) -> Seq<(int, int)> {
    if a == b {
        seq![(a, b), (-a, b), (a, -b), (-a, -b)]
    } else {
        seq![(a, b), (-a, b), (a, -b), (-a, -b), (b, a), (-b, a), (b, -a), (-b, -a)]
    }
}

/// The squares that a piece of `color` slides over from `(x, y)` in steps of
/// `(dx, dy)`, from the `k`-th step on and up to the `max`-th, as offsets from
/// `(x, y)`. The slide ends at the edge of the board and at the first piece
/// in the way; that piece is taken where it is the other side's.
pub open spec fn ray(
    board: BoardView,
    color: PlayerColor,
    x: int,
    y: int,
    dx: int,
    dy: int,
    k: int,
    max: int,
) -> Seq<(int, int)>
    decreases max - k + 1,
{
    if k > max || !board.in_bounds(x + k * dx, y + k * dy) {
        Seq::empty()
    } else {
        match board.occupant(x + k * dx, y + k * dy) {
            None => seq![(k * dx, k * dy)] + ray(board, color, x, y, dx, dy, k + 1, max),
            Some((_, owner)) => if owner != color {
                seq![(k * dx, k * dy)]
            } else {
                Seq::empty()
            },
        }
    }
}

/// The slides in each of the given steps, one after another. A step that
/// leads nowhere is not slid along: it stands among the offsets once,
/// however often it is given.
pub open spec fn slides(
    board: BoardView,
    color: PlayerColor,
    x: int,
    y: int,
    steps: Seq<(int, int)>,
    max: int,
) -> Seq<(int, int)>
    decreases steps.len(),
{
    if steps.len() == 0 {
        Seq::empty()
    } else {
        let before = slides(board, color, x, y, steps.drop_last(), max);
        let step = steps.last();
        if step == (0int, 0int) {
            if before.contains(step) {
                before
            } else {
                before.push(step)
            }
        } else {
            before + ray(board, color, x, y, step.0, step.1, 1, max)
        }
    }
}

/// Whether every one of the conditions holds of the offset `(dx, dy)` from
/// `(x, y)`.
pub open spec fn all_hold(
    tags: Seq<MovementCondition>,
    board: BoardView,
    player: Player,
    previous_actions: Seq<Action>,
    x: int,
    y: int,
    dx: int,
    dy: int,
) -> bool {
    forall|i: int|
        0 <= i < tags.len() ==> (#[trigger] tags[i]).holds(
            board,
            player,
            previous_actions,
            x,
            y,
            dx,
            dy,
        )
}

/// The longer side of the board: no slide has more steps.
pub open spec fn longest_slide(board: BoardView) -> int {
    if board.width >= board.height {
        board.width as int
    } else {
        board.height as int
    }
}

impl MoveTree {
    /// Whether the tree is made of single steps: no `Range` and no `RangeAny`
    /// stands in it.
    pub open spec fn is_step(self) -> bool
        decreases self,
    {
        match self {
            MoveTree::Stay => true,
            MoveTree::Undirected(_, _) => true,
            MoveTree::Directed(_, _) => true,
            MoveTree::RangeAny(_) => false,
            MoveTree::Range(_, _) => false,
            MoveTree::Union(moves) => forall|i: int|
                0 <= i < moves.len() ==> (#[trigger] moves[i]).is_step(),
            MoveTree::Condition(inner, _) => inner.is_step(),
        }
    }

    /// Whether the tree has a meaning: every `Range` and `RangeAny` in it
    /// stands over single steps.
    pub open spec fn resolvable(self) -> bool
        decreases self,
    {
        match self {
            MoveTree::Stay => true,
            MoveTree::Undirected(_, _) => true,
            MoveTree::Directed(_, _) => true,
            MoveTree::RangeAny(inner) => inner.is_step(),
            MoveTree::Range(inner, _) => inner.is_step(),
            MoveTree::Union(moves) => forall|i: int|
                0 <= i < moves.len() ==> (#[trigger] moves[i]).resolvable(),
            MoveTree::Condition(inner, _) => inner.resolvable(),
        }
    }

    /// The offsets by which a piece of `player` on `(x, y)` may move under
    /// this tree, in the order in which `flatten` gives them. An offset
    /// stands as often as the tree gives it.
    pub open spec fn moves(
        self,
        board: BoardView,
        player: Player,
        previous_actions: Seq<Action>,
        x: int,
        y: int,
    ) -> Seq<(int, int)>
        decreases self, 0nat,
    {
        match self {
            MoveTree::Stay => Seq::empty(),
            MoveTree::Undirected(a, b) => undirected_offsets(a, b).filter(
                |d: (int, int)| can_land(board, player.color, x + d.0, y + d.1),
            ),
            MoveTree::Directed(dx, dy) => if board.in_bounds(x + dx, y + dy) {
                seq![(dx, dy)]
            } else {
                Seq::empty()
            },
            MoveTree::RangeAny(inner) => slides(
                board,
                player.color,
                x,
                y,
                inner.moves(board, player, previous_actions, x, y),
                longest_slide(board),
            ),
            MoveTree::Range(inner, max) => slides(
                board,
                player.color,
                x,
                y,
                inner.moves(board, player, previous_actions, x, y),
                max,
            ),
            MoveTree::Union(moves) => Self::moves_of_first(
                moves,
                moves.len(),
                board,
                player,
                previous_actions,
                x,
                y,
            ),
            MoveTree::Condition(inner, tags) => inner.moves(
                board,
                player,
                previous_actions,
                x,
                y,
            ).filter(
                |d: (int, int)| all_hold(tags, board, player, previous_actions, x, y, d.0, d.1),
            ),
        }
    }

    /// The moves of the first `n` trees of a list, one after another.
    pub open spec fn moves_of_first(
        list: Seq<MoveTree>,
        n: nat,
        board: BoardView,
        player: Player,
        previous_actions: Seq<Action>,
        x: int,
        y: int,
    ) -> Seq<(int, int)>
        decreases list, n,
    {
        if n == 0 || n > list.len() {
            Seq::empty()
        } else {
            Self::moves_of_first(list, (n - 1) as nat, board, player, previous_actions, x, y)
                + list[n - 1].moves(board, player, previous_actions, x, y)
        }
    }

    /// A tree of single steps has a meaning.
    pub proof fn lemma_step_resolvable(self)
        requires
            self.is_step(),
        ensures
            self.resolvable(),
        decreases self,
    {
        match self {
            MoveTree::Union(moves) => {
                assert forall|i: int| 0 <= i < moves.len() implies (#[trigger] moves[i]).resolvable() by {
                    moves[i].lemma_step_resolvable();
                }
            },
            MoveTree::Condition(inner, _) => {
                inner.lemma_step_resolvable();
            },
            _ => {},
        }
    }
}

/// Offsets as pairs of integers.
pub open spec fn offsets(list: Seq<RawMovement>) -> Seq<(int, int)> {
    Seq::new(list.len(), |i: int| (list[i].0 as int, list[i].1 as int))
}

/// Adding to a sequence and then leaving out what fails `keep` is leaving out
/// first and then adding what passes.
pub proof fn lemma_filter_push<A>(list: Seq<A>, last: A, keep: spec_fn(A) -> bool)
    ensures
        list.push(last).filter(keep) == if keep(last) {
            list.filter(keep).push(last)
        } else {
            list.filter(keep)
        },
{
    reveal(Seq::filter);
    assert(list.push(last).drop_last() =~= list);
}

/// What is left of a sequence by `keep` was in the sequence and passes
/// `keep`.
proof fn lemma_filter_within<A>(list: Seq<A>, keep: spec_fn(A) -> bool, i: int)
    requires
        0 <= i < list.filter(keep).len(),
    ensures
        list.contains(list.filter(keep)[i]),
        keep(list.filter(keep)[i]),
    decreases list.len(),
{
    reveal(Seq::filter);
    if list.len() > 0 {
        let front = list.drop_last();
        if i < front.filter(keep).len() {
            lemma_filter_within(front, keep, i);
            let at = choose|j: int| 0 <= j < front.len() && front[j] == front.filter(keep)[i];
            assert(list[at] == front.filter(keep)[i]);
        } else {
            assert(list[list.len() - 1] == list.last());
        }
    }
}

/// A slide stays on the board.
pub proof fn lemma_ray_on_board(
    board: BoardView,
    color: PlayerColor,
    x: int,
    y: int,
    dx: int,
    dy: int,
    k: int,
    max: int,
    i: int,
)
    requires
        0 <= i < ray(board, color, x, y, dx, dy, k, max).len(),
    ensures
        board.in_bounds(
            x + ray(board, color, x, y, dx, dy, k, max)[i].0,
            y + ray(board, color, x, y, dx, dy, k, max)[i].1,
        ),
    decreases max - k + 1,
{
    if i > 0 {
        lemma_ray_on_board(board, color, x, y, dx, dy, k + 1, max, i - 1);
    }
}

/// Slides stay on the board, where the origin is on the board if a step
/// leads nowhere.
pub proof fn lemma_slides_on_board(
    board: BoardView,
    color: PlayerColor,
    x: int,
    y: int,
    steps: Seq<(int, int)>,
    max: int,
    i: int,
)
    requires
        steps.contains((0int, 0int)) ==> board.in_bounds(x, y),
        0 <= i < slides(board, color, x, y, steps, max).len(),
    ensures
        board.in_bounds(
            x + slides(board, color, x, y, steps, max)[i].0,
            y + slides(board, color, x, y, steps, max)[i].1,
        ),
    decreases steps.len(),
{
    let front = slides(board, color, x, y, steps.drop_last(), max);
    let step = steps.last();
    assert(steps[steps.len() - 1] == step);
    if i < front.len() {
        if steps.drop_last().contains((0int, 0int)) {
            let at = choose|j: int|
                0 <= j < steps.drop_last().len() && steps.drop_last()[j] == (0int, 0int);
            assert(steps[at] == (0int, 0int));
        }
        lemma_slides_on_board(board, color, x, y, steps.drop_last(), max, i);
    } else if step != (0int, 0int) {
        lemma_ray_on_board(board, color, x, y, step.0, step.1, 1, max, i - front.len());
    }
}

impl MoveTree {
    /// Every offset that a tree gives leads to a square of the board.
    pub proof fn lemma_moves_on_board(
        self,
        board: BoardView,
        player: Player,
        previous_actions: Seq<Action>,
        x: int,
        y: int,
        i: int,
    )
        requires
            0 <= i < self.moves(board, player, previous_actions, x, y).len(),
        ensures
            board.in_bounds(
                x + self.moves(board, player, previous_actions, x, y)[i].0,
                y + self.moves(board, player, previous_actions, x, y)[i].1,
            ),
        decreases self, 0nat,
    {
        match self {
            MoveTree::Stay => {},
            MoveTree::Undirected(a, b) => {
                let keep = |d: (int, int)| can_land(board, player.color, x + d.0, y + d.1);
                lemma_filter_within(undirected_offsets(a, b), keep, i);
            },
            MoveTree::Directed(dx, dy) => {},
            MoveTree::RangeAny(inner) => {
                inner.lemma_nowhere_on_board(board, player, previous_actions, x, y);
                lemma_slides_on_board(
                    board,
                    player.color,
                    x,
                    y,
                    inner.moves(board, player, previous_actions, x, y),
                    longest_slide(board),
                    i,
                );
            },
            MoveTree::Range(inner, max) => {
                inner.lemma_nowhere_on_board(board, player, previous_actions, x, y);
                lemma_slides_on_board(
                    board,
                    player.color,
                    x,
                    y,
                    inner.moves(board, player, previous_actions, x, y),
                    max,
                    i,
                );
            },
            MoveTree::Union(moves) => {
                Self::lemma_first_moves_on_board(
                    moves,
                    moves.len(),
                    board,
                    player,
                    previous_actions,
                    x,
                    y,
                    i,
                );
            },
            MoveTree::Condition(inner, tags) => {
                let keep = |d: (int, int)|
                    all_hold(tags, board, player, previous_actions, x, y, d.0, d.1);
                let all = inner.moves(board, player, previous_actions, x, y);
                lemma_filter_within(all, keep, i);
                let at = choose|j: int| 0 <= j < all.len() && all[j] == all.filter(keep)[i];
                inner.lemma_moves_on_board(board, player, previous_actions, x, y, at);
            },
        }
    }

    /// A tree gives the offset that leads nowhere only from a square of the
    /// board.
    proof fn lemma_nowhere_on_board(
        self,
        board: BoardView,
        player: Player,
        previous_actions: Seq<Action>,
        x: int,
        y: int,
    )
        ensures
            self.moves(board, player, previous_actions, x, y).contains((0int, 0int))
                ==> board.in_bounds(x, y),
        decreases self, 1nat,
    {
        let moves = self.moves(board, player, previous_actions, x, y);
        if moves.contains((0int, 0int)) {
            let at = choose|j: int| 0 <= j < moves.len() && moves[j] == (0int, 0int);
            self.lemma_moves_on_board(board, player, previous_actions, x, y, at);
        }
    }

    /// Every offset that the first `n` trees of a list give leads to a square
    /// of the board.
    pub proof fn lemma_first_moves_on_board(
        list: Seq<MoveTree>,
        n: nat,
        board: BoardView,
        player: Player,
        previous_actions: Seq<Action>,
        x: int,
        y: int,
        i: int,
    )
        requires
            0 <= i < Self::moves_of_first(list, n, board, player, previous_actions, x, y).len(),
        ensures
            board.in_bounds(
                x + Self::moves_of_first(list, n, board, player, previous_actions, x, y)[i].0,
                y + Self::moves_of_first(list, n, board, player, previous_actions, x, y)[i].1,
            ),
        decreases list, n,
    {
        if n == 0 || n > list.len() {
        } else {
            let front = Self::moves_of_first(
                list,
                (n - 1) as nat,
                board,
                player,
                previous_actions,
                x,
                y,
            );
            if i < front.len() {
                Self::lemma_first_moves_on_board(
                    list,
                    (n - 1) as nat,
                    board,
                    player,
                    previous_actions,
                    x,
                    y,
                    i,
                );
            } else {
                list[n - 1].lemma_moves_on_board(
                    board,
                    player,
                    previous_actions,
                    x,
                    y,
                    i - front.len(),
                );
            }
        }
    }
}

/// Whether the `i`-th square from `(x, y)` in steps of `(dx, dy)` is on the
/// board and empty.
pub open spec fn free_at(board: BoardView, x: int, y: int, dx: int, dy: int, i: int) -> bool {
    board.in_bounds(x + i * dx, y + i * dy) && board.occupant(x + i * dx, y + i * dy) is None
}

/// A slide over free squares up to a piece: from the `k`-th step on it goes
/// over every square before the piece, and takes the piece where it is the
/// other side's.
proof fn lemma_ray_to_piece(
    board: BoardView,
    color: PlayerColor,
    x: int,
    y: int,
    dx: int,
    dy: int,
    k: int,
    max: int,
    j: int,
)
    requires
        1 <= k <= j <= max,
        forall|i: int| k <= i < j ==> #[trigger] free_at(board, x, y, dx, dy, i),
        board.in_bounds(x + j * dx, y + j * dy),
        board.occupant(x + j * dx, y + j * dy) is Some,
    ensures
        ray(board, color, x, y, dx, dy, k, max).len() == j - k + (if board.occupant(
            x + j * dx,
            y + j * dy,
        ).unwrap().1 != color {
            1int
        } else {
            0int
        }),
        forall|i: int|
            0 <= i < ray(board, color, x, y, dx, dy, k, max).len() ==> #[trigger] ray(
                board,
                color,
                x,
                y,
                dx,
                dy,
                k,
                max,
            )[i] == ((k + i) * dx, (k + i) * dy),
    decreases j - k,
{
    if k < j {
        assert(free_at(board, x, y, dx, dy, k));
        lemma_ray_to_piece(board, color, x, y, dx, dy, k + 1, max, j);
        let rest = ray(board, color, x, y, dx, dy, k + 1, max);
        let whole = ray(board, color, x, y, dx, dy, k, max);
        assert(whole == seq![(k * dx, k * dy)] + rest);
        assert forall|i: int| 0 <= i < whole.len() implies #[trigger] whole[i] == (
            (k + i) * dx,
            (k + i) * dy,
        ) by {
            if i > 0 {
                assert(whole[i] == rest[i - 1]);
                assert(k + 1 + (i - 1) == k + i);
            }
        }
    }
}

/// Sliding ends at the first piece in the way. Let the first `j - 1` squares
/// of a slide be free and a piece stand on the `j`-th, within the reach of
/// the slide. Then the slide goes over the free squares in their order, and
/// after them it takes the piece and ends there, where the piece is the
/// other side's; it ends before the piece where the piece is the mover's own.
pub proof fn lemma_slide_ends_at_first_piece(
    board: BoardView,
    color: PlayerColor,
    x: int,
    y: int,
    dx: int,
    dy: int,
    max: int,
    j: int,
)
    requires
        1 <= j <= max,
        forall|i: int| 1 <= i < j ==> #[trigger] free_at(board, x, y, dx, dy, i),
        board.in_bounds(x + j * dx, y + j * dy),
        board.occupant(x + j * dx, y + j * dy) is Some,
    ensures
        board.occupant(x + j * dx, y + j * dy).unwrap().1 != color ==> ray(
            board,
            color,
            x,
            y,
            dx,
            dy,
            1,
            max,
        ).len() == j && ray(board, color, x, y, dx, dy, 1, max)[j - 1] == (j * dx, j * dy),
        board.occupant(x + j * dx, y + j * dy).unwrap().1 == color ==> ray(
            board,
            color,
            x,
            y,
            dx,
            dy,
            1,
            max,
        ).len() == j - 1,
        forall|i: int|
            0 <= i < ray(board, color, x, y, dx, dy, 1, max).len() ==> #[trigger] ray(
                board,
                color,
                x,
                y,
                dx,
                dy,
                1,
                max,
            )[i] == ((i + 1) * dx, (i + 1) * dy),
{
    lemma_ray_to_piece(board, color, x, y, dx, dy, 1, max, j);
    let whole = ray(board, color, x, y, dx, dy, 1, max);
    assert forall|i: int| 0 <= i < whole.len() implies #[trigger] whole[i] == (
        (i + 1) * dx,
        (i + 1) * dy,
    ) by {
        assert(1 + i == i + 1);
    }
    if board.occupant(x + j * dx, y + j * dy).unwrap().1 != color {
        assert(whole[j - 1] == ((1 + (j - 1)) * dx, (1 + (j - 1)) * dy));
        assert(1 + (j - 1) == j);
    }
}

/// A range over one fixed step is the slide in that step.
pub proof fn lemma_range_of_step(
    board: BoardView,
    player: Player,
    previous_actions: Seq<Action>,
    x: int,
    y: int,
    dx: int,
    dy: int,
    max: int,
)
    requires
        dx != 0 || dy != 0,
    ensures
        MoveTree::Range(Box::new(MoveTree::Directed(dx, dy)), max).moves(
            board,
            player,
            previous_actions,
            x,
            y,
        ) == ray(board, player.color, x, y, dx, dy, 1, max),
        MoveTree::RangeAny(Box::new(MoveTree::Directed(dx, dy))).moves(
            board,
            player,
            previous_actions,
            x,
            y,
        ) == ray(board, player.color, x, y, dx, dy, 1, longest_slide(board)),
{
    let steps = MoveTree::Directed(dx, dy).moves(board, player, previous_actions, x, y);
    let none = Seq::<(int, int)>::empty();
    assert(1 * dx == dx && 1 * dy == dy);
    if board.in_bounds(x + dx, y + dy) {
        assert(steps.drop_last() =~= none);
        assert(steps.last() == (dx, dy));
        assert(slides(board, player.color, x, y, none, max) =~= none);
        assert(slides(board, player.color, x, y, none, longest_slide(board)) =~= none);
        assert(slides(board, player.color, x, y, steps, max) =~= ray(
            board,
            player.color,
            x,
            y,
            dx,
            dy,
            1,
            max,
        ));
        assert(slides(board, player.color, x, y, steps, longest_slide(board)) =~= ray(
            board,
            player.color,
            x,
            y,
            dx,
            dy,
            1,
            longest_slide(board),
        ));
    }
}

/// A step forward that only white makes and only onto a free square: black
/// has no such move, and nobody has it onto an occupied square.
pub proof fn lemma_guarded_step(
    board: BoardView,
    player: Player,
    previous_actions: Seq<Action>,
    x: int,
    y: int,
    dx: int,
    dy: int,
)
    requires
        player.color == PlayerColor::Black || board.occupant(x + dx, y + dy) is Some,
    ensures
        MoveTree::Condition(
            Box::new(MoveTree::Directed(dx, dy)),
            seq![MovementCondition::AsWhite, MovementCondition::NoCapture],
        ).moves(board, player, previous_actions, x, y) == Seq::<(int, int)>::empty(),
{
    let tags = seq![MovementCondition::AsWhite, MovementCondition::NoCapture];
    let keep = |d: (int, int)| all_hold(tags, board, player, previous_actions, x, y, d.0, d.1);
    let inner = MoveTree::Directed(dx, dy).moves(board, player, previous_actions, x, y);
    let none = Seq::<(int, int)>::empty();
    assert(none.filter(keep) =~= none) by {
        reveal(Seq::filter);
    }
    if inner.len() > 0 {
        assert(none.push((dx, dy)) =~= inner);
        lemma_filter_push(none, (dx, dy), keep);
        if player.color == PlayerColor::Black {
            assert(!tags[0].holds(board, player, previous_actions, x, y, dx, dy));
        } else {
            assert(!tags[1].holds(board, player, previous_actions, x, y, dx, dy));
        }
    } else {
        assert(inner =~= none);
    }
}

} // verus!

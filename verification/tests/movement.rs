use sharmat::action::Action;
use sharmat::board::{Board, BoardError};
use sharmat::movement::{
    CustomCondition, CustomRule, FlattenError, MovementCondition, MovementType, RawMovement,
};
use sharmat::player::{Player, PlayerColor};

fn assert_set_equal<T: PartialEq + std::fmt::Debug>(a: Vec<T>, b: Vec<T>) {
    let res = set_equal(&a, &b);
    assert!(
        res,
        "Sets A and B are not equal:\nA = {:#?}\nB = {:#?}",
        a, b
    )
}

/// Returns `a = b <=> a ⊂ b & b ⊂ a`
fn set_equal<T: PartialEq>(a: &Vec<T>, b: &Vec<T>) -> bool {
    set_inclusion(a, b) && set_inclusion(b, a)
}

/// Returns `a ⊂ b`
fn set_inclusion<T: PartialEq>(a: &Vec<T>, b: &Vec<T>) -> bool {
    a.len() == 0
        || a.iter()
            .all(|a_elem| b.iter().find(|b_elem| a_elem == *b_elem).is_some())
}

fn sorted(mut moves: Vec<RawMovement>) -> Vec<RawMovement> {
    moves.sort();
    moves
}

#[test]
fn movement_undirected() {
    let knight_movement = MovementType::Undirected(2, 1);
    let board = Board::new(8, 8);
    let player = Player::new(PlayerColor::White);
    assert_set_equal(
        knight_movement.flatten(&board, &player, &Vec::new(), 4, 4).unwrap(),
        vec![
            (2, 1),
            (1, 2),
            (-2, 1),
            (-1, 2),
            (2, -1),
            (1, -2),
            (-2, -1),
            (-1, -2),
        ],
    );
}

#[test]
fn movement_directed() {
    let pawn_movement = MovementType::Directed(0, 1);
    let board = Board::new(8, 8);
    let player = Player::new(PlayerColor::White);
    assert_set_equal(
        pawn_movement.flatten(&board, &player, &Vec::new(), 4, 4).unwrap(),
        vec![(0, 1)],
    );
}

#[test]
fn movement_range() {
    let double_wazir_movement = MovementType::Range(Box::new(MovementType::Undirected(1, 0)), 2);
    let board = Board::new(8, 8);
    let player = Player::new(PlayerColor::White);
    assert_set_equal(
        double_wazir_movement
            .flatten(&board, &player, &Vec::new(), 4, 4)
            .unwrap(),
        vec![
            (1, 0),
            (2, 0),
            (-1, 0),
            (-2, 0),
            (0, 1),
            (0, 2),
            (0, -1),
            (0, -2),
        ],
    );
}

#[test]
fn movement_range_any() {
    let rook_movement = MovementType::RangeAny(Box::new(MovementType::Undirected(1, 0)));
    let board = Board::new(8, 8);
    let player = Player::new(PlayerColor::White);
    assert_set_equal(
        rook_movement.flatten(&board, &player, &Vec::new(), 4, 3).unwrap(),
        vec![
            (1, 0),
            (2, 0),
            (3, 0),
            (-1, 0),
            (-2, 0),
            (-3, 0),
            (-4, 0),
            (0, 1),
            (0, 2),
            (0, 3),
            (0, 4),
            (0, -1),
            (0, -2),
            (0, -3),
        ],
    );
}

#[test]
fn stay_yields_nothing() {
    let board = Board::new(8, 8);
    let player = Player::new(PlayerColor::White);
    let moves = MovementType::Stay.flatten(&board, &player, &Vec::new(), 4, 4).unwrap();
    assert_eq!(moves, Vec::<RawMovement>::new());
}

#[test]
fn undirected_knight_exact_order_and_count() {
    let board = Board::new(8, 8);
    let player = Player::new(PlayerColor::White);
    let moves = MovementType::Undirected(2, 1)
        .flatten(&board, &player, &Vec::new(), 4, 4)
        .unwrap();
    assert_eq!(
        moves,
        vec![(2, 1), (-2, 1), (2, -1), (-2, -1), (1, 2), (-1, 2), (1, -2), (-1, -2)]
    );
}

#[test]
fn undirected_equal_sides_has_four() {
    let board = Board::new(8, 8);
    let player = Player::new(PlayerColor::White);
    let moves = MovementType::Undirected(2, 2)
        .flatten(&board, &player, &Vec::new(), 4, 4)
        .unwrap();
    assert_eq!(moves, vec![(2, 2), (-2, 2), (2, -2), (-2, -2)]);
}

#[test]
fn undirected_is_cut_at_the_edge() {
    let board = Board::new(8, 8);
    let player = Player::new(PlayerColor::White);
    let moves = MovementType::Undirected(2, 1)
        .flatten(&board, &player, &Vec::new(), 0, 0)
        .unwrap();
    assert_eq!(sorted(moves), vec![(1, 2), (2, 1)]);
}

#[test]
fn undirected_takes_the_opponent_and_spares_its_own() {
    let mut board = Board::new(8, 8);
    board.set(6, 5, Some((0, PlayerColor::White))).unwrap();
    board.set(5, 6, Some((0, PlayerColor::Black))).unwrap();
    let player = Player::new(PlayerColor::White);
    let moves = MovementType::Undirected(2, 1)
        .flatten(&board, &player, &Vec::new(), 4, 4)
        .unwrap();
    assert!(!moves.contains(&(2, 1)));
    assert!(moves.contains(&(1, 2)));
    assert_eq!(moves.len(), 7);
}

#[test]
fn undirected_huge_offset_reaches_nothing() {
    let board = Board::new(8, 8);
    let player = Player::new(PlayerColor::White);
    let moves = MovementType::Undirected(usize::MAX, 1)
        .flatten(&board, &player, &Vec::new(), 4, 4)
        .unwrap();
    assert_eq!(moves, Vec::<RawMovement>::new());
}

#[test]
fn directed_ignores_occupancy() {
    let mut board = Board::new(8, 8);
    board.set(4, 5, Some((0, PlayerColor::White))).unwrap();
    let player = Player::new(PlayerColor::White);
    let moves = MovementType::Directed(0, 1)
        .flatten(&board, &player, &Vec::new(), 4, 4)
        .unwrap();
    assert_eq!(moves, vec![(0, 1)]);
}

#[test]
fn directed_off_the_board_is_dropped() {
    let board = Board::new(8, 8);
    let player = Player::new(PlayerColor::White);
    let moves = MovementType::Directed(0, 1)
        .flatten(&board, &player, &Vec::new(), 4, 7)
        .unwrap();
    assert_eq!(moves, Vec::<RawMovement>::new());
    let moves = MovementType::Directed(isize::MIN, isize::MAX)
        .flatten(&board, &player, &Vec::new(), 4, 7)
        .unwrap();
    assert_eq!(moves, Vec::<RawMovement>::new());
}

#[test]
fn slide_takes_the_first_opponent_and_stops() {
    let mut board = Board::new(8, 8);
    board.set(4, 5, Some((0, PlayerColor::Black))).unwrap();
    board.set(4, 6, Some((0, PlayerColor::Black))).unwrap();
    let player = Player::new(PlayerColor::White);
    let moves = MovementType::RangeAny(Box::new(MovementType::Directed(0, 1)))
        .flatten(&board, &player, &Vec::new(), 4, 3)
        .unwrap();
    assert_eq!(moves, vec![(0, 1), (0, 2)]);
}

#[test]
fn slide_stops_before_its_own_piece() {
    let mut board = Board::new(8, 8);
    board.set(4, 5, Some((0, PlayerColor::White))).unwrap();
    let player = Player::new(PlayerColor::White);
    let moves = MovementType::RangeAny(Box::new(MovementType::Directed(0, 1)))
        .flatten(&board, &player, &Vec::new(), 4, 3)
        .unwrap();
    assert_eq!(moves, vec![(0, 1)]);
}

#[test]
fn range_any_runs_to_the_edge_of_a_wide_board() {
    let board = Board::new(12, 3);
    let player = Player::new(PlayerColor::White);
    let moves = MovementType::RangeAny(Box::new(MovementType::Directed(1, 0)))
        .flatten(&board, &player, &Vec::new(), 0, 1)
        .unwrap();
    assert_eq!(moves.len(), 11);
    assert_eq!(moves[10], (11, 0));
}

#[test]
fn range_is_capped() {
    let board = Board::new(8, 8);
    let player = Player::new(PlayerColor::White);
    let moves = MovementType::Range(Box::new(MovementType::Directed(1, 1)), 2)
        .flatten(&board, &player, &Vec::new(), 0, 0)
        .unwrap();
    assert_eq!(moves, vec![(1, 1), (2, 2)]);
    let moves = MovementType::Range(Box::new(MovementType::Directed(1, 1)), 0)
        .flatten(&board, &player, &Vec::new(), 0, 0)
        .unwrap();
    assert_eq!(moves, Vec::<RawMovement>::new());
}

#[test]
fn range_of_knight_steps_leaps() {
    let board = Board::new(8, 8);
    let player = Player::new(PlayerColor::White);
    let moves = MovementType::RangeAny(Box::new(MovementType::Directed(2, 1)))
        .flatten(&board, &player, &Vec::new(), 0, 0)
        .unwrap();
    assert_eq!(moves, vec![(2, 1), (4, 2), (6, 3)]);
}

#[test]
fn union_keeps_overlaps() {
    let board = Board::new(8, 8);
    let player = Player::new(PlayerColor::White);
    let moves = MovementType::Union(vec![
        MovementType::Directed(0, 1),
        MovementType::Directed(0, 1),
        MovementType::Directed(1, 0),
    ])
    .flatten(&board, &player, &Vec::new(), 4, 4)
    .unwrap();
    assert_eq!(moves, vec![(0, 1), (0, 1), (1, 0)]);
}

#[test]
fn union_of_nothing_is_empty() {
    let board = Board::new(8, 8);
    let player = Player::new(PlayerColor::White);
    let moves = MovementType::Union(vec![])
        .flatten(&board, &player, &Vec::new(), 4, 4)
        .unwrap();
    assert_eq!(moves, Vec::<RawMovement>::new());
}

fn white_pawn_step() -> MovementType {
    MovementType::Condition(
        Box::new(MovementType::Directed(0, 1)),
        vec![MovementCondition::AsWhite, MovementCondition::NoCapture],
    )
}

#[test]
fn condition_white_pawn_moves_for_white() {
    let board = Board::new(8, 8);
    let player = Player::new(PlayerColor::White);
    let moves = white_pawn_step().flatten(&board, &player, &Vec::new(), 4, 1).unwrap();
    assert_eq!(moves, vec![(0, 1)]);
}

#[test]
fn condition_white_pawn_is_empty_for_black() {
    let board = Board::new(8, 8);
    let player = Player::new(PlayerColor::Black);
    let moves = white_pawn_step().flatten(&board, &player, &Vec::new(), 4, 1).unwrap();
    assert_eq!(moves, Vec::<RawMovement>::new());
}

#[test]
fn condition_white_pawn_is_empty_when_blocked() {
    let mut board = Board::new(8, 8);
    board.set(4, 2, Some((0, PlayerColor::Black))).unwrap();
    let player = Player::new(PlayerColor::White);
    let moves = white_pawn_step().flatten(&board, &player, &Vec::new(), 4, 1).unwrap();
    assert_eq!(moves, Vec::<RawMovement>::new());
}

#[test]
fn condition_capture_needs_a_piece() {
    let mut board = Board::new(8, 8);
    let tree = MovementType::Condition(
        Box::new(MovementType::Union(vec![
            MovementType::Directed(1, 1),
            MovementType::Directed(-1, 1),
        ])),
        vec![MovementCondition::AsBlack, MovementCondition::Capture],
    );
    let player = Player::new(PlayerColor::Black);
    assert_eq!(
        tree.flatten(&board, &player, &Vec::new(), 4, 1).unwrap(),
        Vec::<RawMovement>::new()
    );
    board.set(3, 2, Some((0, PlayerColor::White))).unwrap();
    assert_eq!(
        tree.flatten(&board, &player, &Vec::new(), 4, 1).unwrap(),
        vec![(-1, 1)]
    );
}

#[test]
fn condition_without_tags_keeps_all() {
    let board = Board::new(8, 8);
    let player = Player::new(PlayerColor::White);
    let tree = MovementType::Condition(Box::new(MovementType::Undirected(1, 1)), vec![]);
    assert_eq!(
        tree.flatten(&board, &player, &Vec::new(), 4, 4).unwrap().len(),
        4
    );
}

struct OnSecondRank;

impl CustomCondition for OnSecondRank {
    fn validate(
        &self,
        _board: &Board,
        _player: &Player,
        _previous_actions: &Vec<Action>,
        _x: usize,
        y: usize,
        _dx: isize,
        _dy: isize,
    ) -> bool {
        y == 1
    }
}

struct AfterOneLeg;

impl CustomCondition for AfterOneLeg {
    fn validate(
        &self,
        _board: &Board,
        _player: &Player,
        previous_actions: &Vec<Action>,
        _x: usize,
        _y: usize,
        _dx: isize,
        _dy: isize,
    ) -> bool {
        previous_actions.len() == 1
    }
}

#[test]
fn custom_condition_is_asked() {
    let board = Board::new(8, 8);
    let player = Player::new(PlayerColor::White);
    let tree = MovementType::Condition(
        Box::new(MovementType::Directed(0, 2)),
        vec![
            MovementCondition::AsWhite,
            MovementCondition::NoCapture,
            MovementCondition::Custom(CustomRule(&OnSecondRank)),
        ],
    );
    assert_eq!(
        tree.flatten(&board, &player, &Vec::new(), 4, 1).unwrap(),
        vec![(0, 2)]
    );
    assert_eq!(
        tree.flatten(&board, &player, &Vec::new(), 4, 2).unwrap(),
        Vec::<RawMovement>::new()
    );
}

#[test]
fn custom_condition_sees_the_legs_entered() {
    let board = Board::new(8, 8);
    let player = Player::new(PlayerColor::White);
    let tree = MovementType::Condition(
        Box::new(MovementType::Directed(1, 0)),
        vec![MovementCondition::Custom(CustomRule(&AfterOneLeg))],
    );
    assert_eq!(
        tree.flatten(&board, &player, &Vec::new(), 4, 1).unwrap(),
        Vec::<RawMovement>::new()
    );
    assert_eq!(
        tree.flatten(&board, &player, &vec![Action::Movement(3, 1, 4, 1)], 4, 1)
            .unwrap(),
        vec![(1, 0)]
    );
}

#[test]
fn validate_each_condition() {
    let mut board = Board::new(8, 8);
    board.set(4, 5, Some((0, PlayerColor::Black))).unwrap();
    let white = Player::new(PlayerColor::White);
    let black = Player::new(PlayerColor::Black);
    let legs = Vec::new();
    assert!(MovementCondition::Capture.validate(&board, &white, &legs, 4, 4, 0, 1));
    assert!(!MovementCondition::Capture.validate(&board, &white, &legs, 4, 4, 1, 0));
    assert!(!MovementCondition::Capture.validate(&board, &white, &legs, 4, 4, 0, 10));
    assert!(!MovementCondition::NoCapture.validate(&board, &white, &legs, 4, 4, 0, 1));
    assert!(MovementCondition::NoCapture.validate(&board, &white, &legs, 4, 4, 1, 0));
    assert!(MovementCondition::NoCapture.validate(&board, &white, &legs, 4, 4, 0, -10));
    assert!(MovementCondition::AsWhite.validate(&board, &white, &legs, 4, 4, 0, 1));
    assert!(!MovementCondition::AsWhite.validate(&board, &black, &legs, 4, 4, 0, 1));
    assert!(MovementCondition::AsBlack.validate(&board, &black, &legs, 4, 4, 0, 1));
    assert!(!MovementCondition::AsBlack.validate(&board, &white, &legs, 4, 4, 0, 1));
    let custom = MovementCondition::Custom(CustomRule(&OnSecondRank));
    assert!(custom.validate(&board, &white, &legs, 4, 1, 0, 1));
    assert!(!custom.validate(&board, &white, &legs, 4, 4, 0, 1));
}

#[test]
fn nested_range_is_unresolvable() {
    let board = Board::new(8, 8);
    let player = Player::new(PlayerColor::White);
    let tree = MovementType::RangeAny(Box::new(MovementType::Range(
        Box::new(MovementType::Directed(0, 1)),
        2,
    )));
    assert!(!tree.resolvable());
    assert_eq!(
        tree.flatten(&board, &player, &Vec::new(), 4, 4).unwrap_err(),
        FlattenError::Unresolvable
    );
    let deep = MovementType::Union(vec![
        MovementType::Directed(0, 1),
        MovementType::Condition(
            Box::new(MovementType::Range(
                Box::new(MovementType::Union(vec![
                    MovementType::Stay,
                    MovementType::RangeAny(Box::new(MovementType::Directed(1, 0))),
                ])),
                3,
            )),
            vec![],
        ),
    ]);
    assert!(!deep.resolvable());
    assert_eq!(
        deep.flatten(&board, &player, &Vec::new(), 4, 4).unwrap_err(),
        FlattenError::Unresolvable
    );
}

#[test]
fn queen_is_resolvable() {
    let board = Board::new(8, 8);
    let player = Player::new(PlayerColor::White);
    let queen = MovementType::RangeAny(Box::new(MovementType::Union(vec![
        MovementType::Undirected(1, 0),
        MovementType::Undirected(1, 1),
    ])));
    assert!(queen.resolvable());
    let moves = queen.flatten(&board, &player, &Vec::new(), 0, 0).unwrap();
    let mut distinct = sorted(moves);
    distinct.dedup();
    assert_eq!(distinct.len(), 21);
}

#[test]
fn clone_keeps_the_tree() {
    let tree = MovementType::Condition(
        Box::new(MovementType::Union(vec![
            MovementType::RangeAny(Box::new(MovementType::Undirected(1, 1))),
            MovementType::Range(Box::new(MovementType::Directed(0, -1)), 2),
            MovementType::Stay,
        ])),
        vec![MovementCondition::AsWhite, MovementCondition::Custom(CustomRule(&OnSecondRank))],
    );
    let copy = tree.clone();
    assert_eq!(format!("{:?}", copy), format!("{:?}", tree));
    assert!(format!("{:?}", copy).contains("Custom(<fn>)"));
}

#[test]
fn execute_moves_the_piece() {
    let mut board = Board::new(8, 8);
    let mut player = Player::new(PlayerColor::White);
    board.set(1, 2, Some((5, PlayerColor::White))).unwrap();
    board.set(3, 4, Some((6, PlayerColor::Black))).unwrap();
    assert_eq!(Action::Movement(1, 2, 3, 4).execute(&mut board, &mut player), Ok(()));
    assert_eq!(board.get(1, 2).unwrap(), None);
    assert_eq!(board.get(3, 4).unwrap(), Some((5, PlayerColor::White)));
    assert_eq!(player, Player::new(PlayerColor::White));
}

#[test]
fn execute_stay_changes_nothing() {
    let mut board = Board::new(8, 8);
    let mut player = Player::new(PlayerColor::White);
    board.set(1, 2, Some((5, PlayerColor::White))).unwrap();
    let before = board.clone();
    assert_eq!(Action::Stay.execute(&mut board, &mut player), Ok(()));
    assert_eq!(board, before);
}

#[test]
fn execute_onto_itself_keeps_the_piece() {
    let mut board = Board::new(8, 8);
    let mut player = Player::new(PlayerColor::White);
    board.set(1, 2, Some((5, PlayerColor::White))).unwrap();
    assert_eq!(Action::Movement(1, 2, 1, 2).execute(&mut board, &mut player), Ok(()));
    assert_eq!(board.get(1, 2).unwrap(), Some((5, PlayerColor::White)));
}

#[test]
fn execute_out_of_bounds() {
    let mut board = Board::new(8, 8);
    let mut player = Player::new(PlayerColor::White);
    board.set(1, 2, Some((5, PlayerColor::White))).unwrap();
    let before = board.clone();
    assert_eq!(
        Action::Movement(8, 2, 9, 9).execute(&mut board, &mut player),
        Err(BoardError::OutOfBounds(8, 2))
    );
    assert_eq!(board, before);
    assert_eq!(
        Action::Movement(1, 2, 3, 8).execute(&mut board, &mut player),
        Err(BoardError::OutOfBounds(3, 8))
    );
    assert_eq!(board.get(1, 2).unwrap(), None);
}

#[test]
fn do_actions_leaves_the_board_alone() {
    let mut board = Board::new(8, 8);
    let player = Player::new(PlayerColor::Black);
    board.set(1, 2, Some((5, PlayerColor::Black))).unwrap();
    let before = board.clone();
    let (after, who) = board
        .do_actions(
            &player,
            &vec![Action::Movement(1, 2, 1, 3), Action::Stay, Action::Movement(1, 3, 2, 3)],
        )
        .unwrap();
    assert_eq!(board, before);
    assert_eq!(who, player);
    assert_eq!(after.get(1, 2).unwrap(), None);
    assert_eq!(after.get(1, 3).unwrap(), None);
    assert_eq!(after.get(2, 3).unwrap(), Some((5, PlayerColor::Black)));
    assert_eq!(
        board
            .do_actions(
                &player,
                &vec![Action::Movement(1, 2, 1, 3), Action::Movement(1, 3, 1, 8), Action::Movement(9, 9, 0, 0)]
            )
            .unwrap_err(),
        BoardError::OutOfBounds(1, 8)
    );
    assert_eq!(board, before);
}

#[test]
fn range_does_not_repeat_a_step_that_leads_nowhere() {
    let board = Board::new(8, 8);
    let player = Player::new(PlayerColor::White);
    let moves = MovementType::RangeAny(Box::new(MovementType::Directed(0, 0)))
        .flatten(&board, &player, &Vec::new(), 4, 4)
        .unwrap();
    assert_eq!(moves, vec![(0, 0)]);
    let moves = MovementType::Range(
        Box::new(MovementType::Union(vec![
            MovementType::Directed(0, 0),
            MovementType::Directed(1, 0),
            MovementType::Undirected(0, 0),
        ])),
        2,
    )
    .flatten(&board, &player, &Vec::new(), 4, 4)
    .unwrap();
    assert_eq!(moves, vec![(0, 0), (1, 0), (2, 0)]);
    let moves = MovementType::RangeAny(Box::new(MovementType::Stay))
        .flatten(&board, &player, &Vec::new(), 4, 4)
        .unwrap();
    assert_eq!(moves, Vec::<RawMovement>::new());
}

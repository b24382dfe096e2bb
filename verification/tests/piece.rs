use sharmat::movement::MovementType;
use sharmat::piece::PieceBuilder;

#[test]
fn piece_create_builder() {
    let _piece = PieceBuilder::new();
}

#[test]
fn piece_create_with_id() {
    let _piece = PieceBuilder::new().id("piece_name").build();
}

#[test]
fn piece_create_with_alias() {
    let _piece = PieceBuilder::new()
        .id("piece_name")
        .alias("Piece name")
        .build();
}

#[test]
fn piece_create_with_description() {
    let _piece = PieceBuilder::new()
        .id("piece_name")
        .desc("It's just a test piece")
        .build();
}

#[test]
fn piece_get_id() {
    let piece = PieceBuilder::new().id("piece_name").build();
    assert_eq!(piece.id(), "piece_name");
}

#[test]
fn piece_get_alias() {
    let piece = PieceBuilder::new()
        .id("piece_name")
        .alias("Piece name")
        .build();
    assert_eq!(piece.alias(), "Piece name");
}

#[test]
fn piece_get_description() {
    let piece = PieceBuilder::new()
        .id("piece_name")
        .desc("It's just a test piece")
        .build();
    assert_eq!(piece.desc(), "It's just a test piece");
}

#[test]
fn piece_id_override() {
    let piece = PieceBuilder::new()
        .id("piece_name")
        .id("other_piece_name")
        .build();
    assert_eq!(piece.id(), "other_piece_name");
}

#[test]
fn piece_alias_append() {
    let piece = PieceBuilder::new()
        .id("piece_name")
        .alias("Insert text")
        .alias("So-called test piece")
        .build();
    assert_eq!(piece.alias(), "Insert text; So-called test piece");
}

#[test]
fn piece_description_append() {
    let piece = PieceBuilder::new()
        .id("piece_name")
        .desc("First line")
        .desc("Second line")
        .build();
    assert_eq!(piece.desc(), "First line\nSecond line");
}

#[test]
fn piece_default_id_is_a_number() {
    let piece = PieceBuilder::new().build();
    assert!(!piece.id().is_empty());
    assert!(piece.id().chars().all(|c| c.is_ascii_digit()));
    assert!(piece.id().parse::<u128>().is_ok());
}

#[test]
fn piece_defaults() {
    let piece = PieceBuilder::new().id("plain").build();
    assert_eq!(piece.alias(), "");
    assert_eq!(piece.alias_list().len(), 0);
    assert_eq!(piece.desc(), "");
    assert_eq!(piece.display_white(), "plain");
    assert_eq!(piece.display_black(), "plain");
    assert_eq!(piece.movement_type().len(), 1);
    assert_eq!(format!("{:?}", piece.movement_type()[0]), "Stay");
}

#[test]
fn piece_display_names() {
    let piece = PieceBuilder::new()
        .id("standard.rook")
        .alias("rook")
        .display_white("standard.w_rook")
        .display_black("standard.b_rook")
        .build();
    assert_eq!(piece.display_white(), "standard.w_rook");
    assert_eq!(piece.display_black(), "standard.b_rook");
    assert_eq!(
        *piece.alias_list(),
        vec!["rook".to_string(), "standard.w_rook".to_string(), "standard.b_rook".to_string()]
    );
    assert_eq!(piece.alias(), "rook; standard.w_rook; standard.b_rook");
    assert!(piece.has_alias("rook"));
    assert!(piece.has_alias("standard.b_rook"));
    assert!(!piece.has_alias("standard.rook"));
    assert!(piece.has_id("standard.rook"));
    assert!(!piece.has_id("rook"));
}

#[test]
fn piece_display_later_call_wins() {
    let piece = PieceBuilder::new()
        .id("x")
        .display_white("one")
        .display_white("two")
        .build();
    assert_eq!(piece.display_white(), "two");
    assert_eq!(piece.display_black(), "x");
    assert_eq!(piece.alias(), "one; two");
}

#[test]
fn piece_description_of_three_lines() {
    let piece = PieceBuilder::new()
        .desc("a")
        .desc("")
        .desc("c")
        .build();
    assert_eq!(piece.desc(), "a\n\nc");
    let piece = PieceBuilder::new().desc("").desc("b").build();
    assert_eq!(piece.desc(), "b");
}

#[test]
fn piece_equality_leaves_movement_out() {
    let a = PieceBuilder::new().id("x").alias("y").desc("z").build();
    let b = PieceBuilder::new()
        .id("x")
        .alias("y")
        .desc("z")
        .movement(vec![MovementType::Undirected(2, 1)])
        .build();
    assert_eq!(a, b);
    assert_eq!(a, a.clone());
    assert_ne!(a, PieceBuilder::new().id("x2").alias("y").desc("z").build());
    assert_ne!(a, PieceBuilder::new().id("x").alias("y2").desc("z").build());
    assert_ne!(a, PieceBuilder::new().id("x").alias("y").alias("y").desc("z").build());
    assert_ne!(a, PieceBuilder::new().id("x").alias("y").desc("z2").build());
    assert_ne!(a, PieceBuilder::new().id("x").display_white("y").desc("z").build());
    assert_ne!(a, PieceBuilder::new().id("x").display_black("y").desc("z").build());
}

#[test]
fn piece_movement_is_kept() {
    let piece = PieceBuilder::new()
        .movement(vec![MovementType::Directed(0, 1), MovementType::Undirected(1, 1)])
        .movement(vec![MovementType::Directed(0, 2), MovementType::Stay, MovementType::Stay])
        .build();
    assert_eq!(piece.movement_type().len(), 3);
    assert_eq!(format!("{:?}", piece.movement_type()[0]), "Directed(0, 2)");
    let copy = piece.clone();
    assert_eq!(format!("{:?}", copy.movement_type()), format!("{:?}", piece.movement_type()));
}

use sharmat::player::{Player, PlayerColor};

#[test]
fn player_create() {
    let _player = Player::new(PlayerColor::White);
}


#[test]
fn player_colors() {
    assert!(PlayerColor::White.white());
    assert!(!PlayerColor::White.black());
    assert!(PlayerColor::Black.black());
    assert!(!PlayerColor::Black.white());
    assert_eq!(Player::new(PlayerColor::Black).color, PlayerColor::Black);
}

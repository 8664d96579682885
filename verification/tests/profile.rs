use snake_game::constants::{
    DEFAULT_APPLE_COLOR, DEFAULT_BACKGROUND_COLOR, DEFAULT_SNAKE_COLOR, USER_ID_LENGTH,
};
use snake_game::resources::{generate_random_id, identifier_from, GameState, Screen, UserProfile};
use snake_game::text::push_decimal;

#[test]
fn random_id_is_twelve_letters_or_digits() {
    for _ in 0..200 {
        let id = generate_random_id();
        assert_eq!(id.chars().count(), USER_ID_LENGTH);
        assert_eq!(id.len(), 12);
        assert!(id.chars().all(|c| c.is_ascii_alphanumeric()));
    }
}

#[test]
fn random_ids_differ() {
    let first = generate_random_id();
    let mut all_same = true;
    for _ in 0..20 {
        if generate_random_id() != first {
            all_same = false;
        }
    }
    assert!(!all_same);
}

#[test]
fn default_profile_is_a_new_player() {
    for _ in 0..200 {
        let profile = UserProfile::default();
        assert_eq!(profile.user_id.len(), 12);
        assert!(profile.user_id.chars().all(|c| c.is_ascii_alphanumeric()));
        assert!(profile.username.starts_with("Player "));
        let suffix: u32 = profile.username["Player ".len()..].parse().unwrap();
        assert!(1000 <= suffix && suffix < 9999);
        assert_eq!(profile.username, format!("Player {}", suffix));
        assert_eq!(profile.snake_color, DEFAULT_SNAKE_COLOR);
        assert_eq!(profile.background_color, DEFAULT_BACKGROUND_COLOR);
        assert_eq!(profile.apple_color, DEFAULT_APPLE_COLOR);
        assert_eq!(profile.high_score, 0);
    }
}

#[test]
fn fresh_profile_has_the_given_identity() {
    let profile = UserProfile::fresh("id".to_string(), 4711);
    assert_eq!(profile.user_id, "id");
    assert_eq!(profile.username, "Player 4711");
    assert_eq!(profile.snake_color, [0, 200, 0]);
    assert_eq!(profile.background_color, [20, 20, 20]);
    assert_eq!(profile.apple_color, [255, 0, 0]);
    assert_eq!(profile.high_score, 0);
    assert_eq!(UserProfile::fresh(String::new(), 0).username, "Player 0");
}

#[test]
fn record_score_only_rises() {
    let mut profile = UserProfile::fresh("id".to_string(), 1000);
    assert!(profile.record_score(7));
    assert_eq!(profile.high_score, 7);
    assert!(!profile.record_score(7));
    assert_eq!(profile.high_score, 7);
    assert!(!profile.record_score(3));
    assert_eq!(profile.high_score, 7);
    assert!(profile.record_score(8));
    assert_eq!(profile.high_score, 8);
    assert!(!profile.record_score(0));
    assert_eq!(profile.username, "Player 1000");
    assert_eq!(profile.user_id, "id");
}

#[test]
fn profile_clone_is_equal() {
    let mut profile = UserProfile::fresh("abc".to_string(), 2000);
    profile.high_score = 5;
    profile.snake_color = [1, 2, 3];
    let copy = profile.clone();
    assert_eq!(copy, profile);
}

#[test]
fn decimal_numerals() {
    for (n, text) in [
        (0u32, "0"),
        (7, "7"),
        (10, "10"),
        (99, "99"),
        (100, "100"),
        (1000, "1000"),
        (9998, "9998"),
        (4294967295, "4294967295"),
    ] {
        let mut out = String::from("n=");
        push_decimal(&mut out, n);
        assert_eq!(out, format!("n={}", text));
    }
}

#[test]
fn state_starts_on_the_main_menu() {
    assert_eq!(GameState::default().current_screen, Screen::MainMenu);
    assert_eq!(Screen::default(), Screen::MainMenu);
}

#[test]
fn identifier_spells_the_bytes_drawn() {
    assert_eq!(identifier_from(&b"aZ09bY18cX27".to_vec()), "aZ09bY18cX27");
    assert_eq!(identifier_from(&Vec::new()), "");
    assert_eq!(identifier_from(&vec![0x41, 0x7a, 0x30]), "Az0");
}

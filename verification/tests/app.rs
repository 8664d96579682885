use snake_game::game_logic::Input;
use snake_game::resources::{Direction, Leaderboard, LeaderboardEntry, Screen, UserProfile};
use snake_game::{AsyncCommand, AsyncMessage, Frame, Reaction, SnakeApp, UserAction};

const TICK: u64 = 150_000;

fn stored() -> UserProfile {
    let mut profile = UserProfile::fresh("abc123XYZ789".to_string(), 4242);
    profile.username = "Ada".to_string();
    profile
}

fn start() -> SnakeApp {
    SnakeApp::new(Some(stored()), None).0
}

fn line(user_id: &str, score: u32) -> LeaderboardEntry {
    LeaderboardEntry { user_id: user_id.to_string(), username: user_id.to_uppercase(), score }
}

fn tick(input: Input) -> Frame {
    Frame { escape: false, messages: vec![], input, dt_micros: TICK }
}

fn quiet() -> Reaction {
    Reaction { exit: false, commands: vec![], save_profile: false, save_leaderboard: false }
}

#[test]
fn app_starts_on_the_main_menu_and_asks_for_the_leaderboard() {
    let (app, first) = SnakeApp::new(Some(stored()), None);
    assert_eq!(first, AsyncCommand::LoadLeaderboard);
    assert_eq!(app.state().current_screen, Screen::MainMenu);
    assert_eq!(app.profile(), &stored());
    assert!(app.leaderboard().entries.is_empty());
    assert_eq!(app.game().snake, vec![(10, 10), (10, 11), (10, 12)]);
    assert_eq!(app.game().score, 0);
}

#[test]
fn app_without_a_stored_profile_makes_a_new_player() {
    let (app, first) = SnakeApp::new(None, None);
    assert_eq!(first, AsyncCommand::LoadLeaderboard);
    assert_eq!(app.profile().user_id.len(), 12);
    assert!(app.profile().username.starts_with("Player "));
    assert_eq!(app.profile().high_score, 0);
}

#[test]
fn failed_sync_leaves_the_leaderboard_as_it_was() {
    let mut app = start();
    let board = Leaderboard::rank(vec![line("a", 10), line("b", 8)]);
    assert_eq!(app.receive(AsyncMessage::LeaderboardLoaded(board.clone())), None);
    assert_eq!(app.leaderboard(), &board);
    assert_eq!(app.receive(AsyncMessage::SyncFailed("network down".to_string())), None);
    assert_eq!(app.leaderboard(), &board);
    let reaction = app.update(Frame {
        escape: false,
        messages: vec![AsyncMessage::SyncFailed("still down".to_string())],
        input: Input::Idle,
        dt_micros: 1,
    });
    assert_eq!(reaction, quiet());
    assert_eq!(app.leaderboard(), &board);
    assert_eq!(app.profile(), &stored());
}

#[test]
fn loaded_leaderboard_replaces_the_one_known() {
    let mut app = start();
    app.receive(AsyncMessage::LeaderboardLoaded(Leaderboard::rank(vec![line("a", 10), line("b", 8)])));
    let fetched = Leaderboard::rank(vec![line("a", 12), line("c", 15)]);
    app.receive(AsyncMessage::LeaderboardLoaded(fetched.clone()));
    assert_eq!(app.leaderboard(), &fetched);
}

#[test]
fn loaded_leaderboard_is_ranked_on_arrival() {
    let mut app = start();
    let unordered = Leaderboard { entries: vec![line("a", 1), line("b", 9), line("a", 4)] };
    app.receive(AsyncMessage::LeaderboardLoaded(unordered));
    assert_eq!(app.leaderboard().entries, vec![line("b", 9), line("a", 4)]);
}

#[test]
fn finished_write_is_answered_by_a_new_read() {
    let mut app = start();
    assert_eq!(app.receive(AsyncMessage::ScoreSubmitted), Some(AsyncCommand::LoadLeaderboard));
    let reaction = app.update(Frame {
        escape: false,
        messages: vec![
            AsyncMessage::ScoreSubmitted,
            AsyncMessage::SyncFailed("x".to_string()),
            AsyncMessage::ScoreSubmitted,
        ],
        input: Input::Idle,
        dt_micros: 0,
    });
    assert_eq!(
        reaction,
        Reaction {
            exit: false,
            commands: vec![AsyncCommand::LoadLeaderboard, AsyncCommand::LoadLeaderboard],
            save_profile: false,
            save_leaderboard: false,
        }
    );
}

#[test]
fn escape_on_the_main_menu_ends_the_program() {
    let mut app = start();
    let reaction = app.update(Frame {
        escape: true,
        messages: vec![AsyncMessage::ScoreSubmitted],
        input: Input::Idle,
        dt_micros: TICK,
    });
    assert_eq!(
        reaction,
        Reaction { exit: true, commands: vec![], save_profile: false, save_leaderboard: false }
    );
    assert_eq!(app.state().current_screen, Screen::MainMenu);
}

#[test]
fn escape_on_other_screens_returns_to_the_main_menu() {
    for screen in [Screen::Settings, Screen::Leaderboard, Screen::Profile, Screen::Share] {
        let mut app = start();
        assert_eq!(app.act(UserAction::Open(screen)), quiet());
        assert_eq!(app.state().current_screen, screen);
        assert!(!app.press_escape());
        assert_eq!(app.state().current_screen, Screen::MainMenu);
    }
}

#[test]
fn leaving_the_playing_screen_resets_the_round() {
    let mut app = start();
    app.act(UserAction::Open(Screen::Playing));
    app.update(tick(Input::Steer(Direction::Left)));
    assert_eq!(app.game().snake, vec![(9, 10), (10, 10), (10, 11)]);
    assert!(!app.press_escape());
    assert_eq!(app.state().current_screen, Screen::MainMenu);
    assert_eq!(app.game().snake, vec![(10, 10), (10, 11), (10, 12)]);
    assert_eq!(app.game().direction, Direction::Up);

    app.act(UserAction::Open(Screen::Playing));
    app.update(tick(Input::Idle));
    assert_eq!(app.game().snake, vec![(10, 9), (10, 10), (10, 11)]);
    app.act(UserAction::Back);
    assert_eq!(app.state().current_screen, Screen::MainMenu);
    assert_eq!(app.game().snake, vec![(10, 10), (10, 11), (10, 12)]);
}

#[test]
fn menu_buttons_only_work_on_the_main_menu() {
    let mut app = start();
    app.act(UserAction::Open(Screen::Settings));
    app.act(UserAction::Open(Screen::Share));
    assert_eq!(app.state().current_screen, Screen::Settings);
    app.act(UserAction::Back);
    app.act(UserAction::Open(Screen::Share));
    assert_eq!(app.state().current_screen, Screen::Share);
}

#[test]
fn nothing_is_played_off_the_playing_screen() {
    let mut app = start();
    assert_eq!(app.update(tick(Input::Steer(Direction::Left))), quiet());
    assert_eq!(app.game().snake, vec![(10, 10), (10, 11), (10, 12)]);
    assert_eq!(app.game().direction, Direction::Up);
    assert_eq!(app.act(UserAction::Steer(Direction::Left)), quiet());
    assert_eq!(app.act(UserAction::TogglePause), quiet());
    assert_eq!(app.game().direction, Direction::Up);
    assert_eq!(app.game().pending, None);
    assert!(!app.game().paused);
}

#[test]
fn pad_and_pause_act_on_the_round() {
    let mut app = start();
    app.act(UserAction::Open(Screen::Playing));
    app.act(UserAction::Steer(Direction::Down));
    assert_eq!(app.game().direction, Direction::Up);
    assert_eq!(app.game().pending, Some(Direction::Down));
    app.act(UserAction::Steer(Direction::Right));
    assert_eq!(app.game().direction, Direction::Up);
    assert_eq!(app.game().pending, Some(Direction::Right));
    app.act(UserAction::TogglePause);
    assert!(app.game().paused);
    assert_eq!(app.update(tick(Input::Idle)), quiet());
    assert_eq!(app.game().snake, vec![(10, 10), (10, 11), (10, 12)]);
    assert_eq!(app.update(tick(Input::TogglePause)), quiet());
    assert_eq!(app.game().snake, vec![(11, 10), (10, 10), (10, 11)]);
}

fn play_until_game_over(app: &mut SnakeApp) -> Reaction {
    app.act(UserAction::Open(Screen::Playing));
    // Up to the row of the food, then left onto it.
    for _ in 0..5 {
        assert_eq!(app.update(tick(Input::Idle)), quiet());
    }
    assert_eq!(app.update(tick(Input::Steer(Direction::Left))), quiet());
    for _ in 0..4 {
        assert_eq!(app.update(tick(Input::Idle)), quiet());
    }
    assert_eq!(app.game().score, 1);
    assert_eq!(app.game().snake[0], (5, 5));
    // A tight turn back into the body.
    assert_eq!(app.update(tick(Input::Steer(Direction::Down))), quiet());
    assert_eq!(app.update(tick(Input::Steer(Direction::Right))), quiet());
    app.update(tick(Input::Steer(Direction::Up)))
}

#[test]
fn game_over_submits_the_score_and_stores_the_profile() {
    let mut app = start();
    let reaction = play_until_game_over(&mut app);
    assert!(app.game().game_over);
    let score = app.game().score;
    assert!(score >= 1);
    assert_eq!(app.profile().high_score, score);
    let mut expected = stored();
    expected.high_score = score;
    assert_eq!(
        reaction,
        Reaction {
            exit: false,
            commands: vec![AsyncCommand::SubmitScore(score, expected)],
            save_profile: true,
            save_leaderboard: false,
        }
    );
    // The round stays over and nothing more is sent.
    assert_eq!(app.update(tick(Input::Idle)), quiet());
}

#[test]
fn game_over_below_the_best_score_submits_without_storing() {
    let mut best = stored();
    best.high_score = 50;
    let mut app = SnakeApp::new(Some(best.clone()), None).0;
    let reaction = play_until_game_over(&mut app);
    let score = app.game().score;
    assert_eq!(app.profile(), &best);
    assert_eq!(
        reaction,
        Reaction {
            exit: false,
            commands: vec![AsyncCommand::SubmitScore(score, best)],
            save_profile: false,
            save_leaderboard: false,
        }
    );
}

#[test]
fn play_again_starts_a_new_round_after_game_over() {
    let mut app = start();
    app.act(UserAction::Open(Screen::Playing));
    app.update(tick(Input::Idle));
    assert_eq!(app.act(UserAction::PlayAgain), quiet());
    assert_eq!(app.game().snake, vec![(10, 9), (10, 10), (10, 11)]);
    let mut over = start();
    play_until_game_over(&mut over);
    assert_eq!(over.act(UserAction::PlayAgain), quiet());
    assert!(!over.game().game_over);
    assert_eq!(over.game().snake, vec![(10, 10), (10, 11), (10, 12)]);
    assert_eq!(over.game().score, 0);
    assert_eq!(over.state().current_screen, Screen::Playing);
}

#[test]
fn refresh_reads_the_leaderboard_again() {
    let mut app = start();
    assert_eq!(app.act(UserAction::Refresh), quiet());
    app.act(UserAction::Open(Screen::Leaderboard));
    assert_eq!(
        app.act(UserAction::Refresh),
        Reaction {
            exit: false,
            commands: vec![AsyncCommand::LoadLeaderboard],
            save_profile: false,
            save_leaderboard: false,
        }
    );
}

#[test]
fn profile_edits_are_stored_and_sent() {
    let mut app = start();
    assert_eq!(app.act(UserAction::Rename("Bob".to_string())), quiet());
    assert_eq!(app.profile(), &stored());
    app.act(UserAction::Open(Screen::Profile));

    let mut expected = stored();
    expected.username = "Bob".to_string();
    assert_eq!(
        app.act(UserAction::Rename("Bob".to_string())),
        Reaction {
            exit: false,
            commands: vec![AsyncCommand::UpdateProfile(expected.clone())],
            save_profile: true,
            save_leaderboard: false,
        }
    );
    assert_eq!(app.profile(), &expected);

    expected.snake_color = [1, 2, 3];
    expected.background_color = [4, 5, 6];
    expected.apple_color = [7, 8, 9];
    assert_eq!(
        app.act(UserAction::Recolor { snake: [1, 2, 3], background: [4, 5, 6], apple: [7, 8, 9] }),
        Reaction {
            exit: false,
            commands: vec![AsyncCommand::UpdateProfile(expected.clone())],
            save_profile: true,
            save_leaderboard: false,
        }
    );

    expected.snake_color = [0, 200, 0];
    expected.background_color = [20, 20, 20];
    expected.apple_color = [255, 0, 0];
    assert_eq!(
        app.act(UserAction::ResetColors),
        Reaction {
            exit: false,
            commands: vec![AsyncCommand::UpdateProfile(expected.clone())],
            save_profile: true,
            save_leaderboard: false,
        }
    );
    assert_eq!(app.profile().user_id, "abc123XYZ789");
    assert_eq!(app.profile().high_score, 0);
}

#[test]
fn messages_are_taken_in_before_the_round_is_played() {
    let mut app = start();
    app.act(UserAction::Open(Screen::Playing));
    let board = Leaderboard::rank(vec![line("a", 3)]);
    let reaction = app.update(Frame {
        escape: false,
        messages: vec![AsyncMessage::LeaderboardLoaded(board.clone()), AsyncMessage::ScoreSubmitted],
        input: Input::Steer(Direction::Right),
        dt_micros: TICK,
    });
    assert_eq!(
        reaction,
        Reaction {
            exit: false,
            commands: vec![AsyncCommand::LoadLeaderboard],
            save_profile: false,
            save_leaderboard: true,
        }
    );
    assert_eq!(app.leaderboard(), &board);
    assert_eq!(app.game().snake, vec![(11, 10), (10, 10), (10, 11)]);
}

#[test]
fn stored_leaderboard_is_shown_until_a_new_one_is_read() {
    let cached = Leaderboard::rank(vec![line("a", 10), line("b", 8)]);
    let (mut app, first) = SnakeApp::new(Some(stored()), Some(cached.clone()));
    assert_eq!(first, AsyncCommand::LoadLeaderboard);
    assert_eq!(app.leaderboard(), &cached);
    let reaction = app.update(Frame {
        escape: false,
        messages: vec![AsyncMessage::SyncFailed("offline".to_string())],
        input: Input::Idle,
        dt_micros: 0,
    });
    assert_eq!(reaction, quiet());
    assert_eq!(app.leaderboard(), &cached);
    let unordered = Leaderboard { entries: vec![line("x", 1), line("y", 2)] };
    let ranked = SnakeApp::new(None, Some(unordered)).0;
    assert_eq!(ranked.leaderboard().entries, vec![line("y", 2), line("x", 1)]);
}

#[test]
fn foreground_stays_valid() {
    let mut app = start();
    assert!(app.is_valid());
    play_until_game_over(&mut app);
    assert!(app.is_valid());
    app.receive(AsyncMessage::LeaderboardLoaded(Leaderboard {
        entries: vec![line("a", 1), line("a", 2), line("b", 9)],
    }));
    assert!(app.is_valid());
}

#[test]
fn quick_turns_on_the_pad_cannot_end_the_round_on_the_neck() {
    let mut app = start();
    app.act(UserAction::Open(Screen::Playing));
    app.act(UserAction::Steer(Direction::Left));
    app.act(UserAction::Steer(Direction::Down));
    assert_eq!(app.update(tick(Input::Idle)), quiet());
    assert!(!app.game().game_over);
    assert_eq!(app.game().direction, Direction::Up);
    assert_eq!(app.game().snake, vec![(10, 9), (10, 10), (10, 11)]);
    assert_eq!(app.update(tick(Input::Steer(Direction::Left))), quiet());
    assert_eq!(app.game().snake, vec![(9, 9), (10, 9), (10, 10)]);
}

use snake_game::resources::{Leaderboard, LeaderboardEntry, UserProfile};
use snake_game::sync::{
    reply_to, request_for, Outcome, Request, SyncWorker, EMPTY_DOCUMENT, REASON_STATUS,
    REASON_UNEXPECTED_ANSWER, REASON_UNEXPECTED_SHAPE,
};
use snake_game::{AsyncCommand, AsyncMessage};

fn player() -> UserProfile {
    let mut profile = UserProfile::fresh("abc123XYZ789".to_string(), 4242);
    profile.username = "Ada".to_string();
    profile.high_score = 31;
    profile
}

fn line(user_id: &str, score: u32) -> LeaderboardEntry {
    LeaderboardEntry { user_id: user_id.to_string(), username: user_id.to_uppercase(), score }
}

#[test]
fn load_leaderboard_reads_the_whole_document() {
    let request = request_for("https://example.test/db/", &AsyncCommand::LoadLeaderboard);
    assert_eq!(
        request,
        Request::Fetch { url: "https://example.test/db/leaderboard.json".to_string() }
    );
    assert_eq!(
        request_for("", &AsyncCommand::LoadLeaderboard),
        Request::Fetch { url: "leaderboard.json".to_string() }
    );
}

#[test]
fn submit_score_writes_the_score_of_the_round() {
    let request = request_for("https://example.test/db/", &AsyncCommand::SubmitScore(7, player()));
    assert_eq!(
        request,
        Request::Patch {
            url: "https://example.test/db/leaderboard/abc123XYZ789.json".to_string(),
            entry: LeaderboardEntry {
                user_id: "abc123XYZ789".to_string(),
                username: "Ada".to_string(),
                score: 7,
            },
        }
    );
}

#[test]
fn update_profile_writes_the_best_score() {
    let request = request_for("base/", &AsyncCommand::UpdateProfile(player()));
    assert_eq!(
        request,
        Request::Patch {
            url: "base/leaderboard/abc123XYZ789.json".to_string(),
            entry: LeaderboardEntry {
                user_id: "abc123XYZ789".to_string(),
                username: "Ada".to_string(),
                score: 31,
            },
        }
    );
}

#[test]
fn failed_load_is_reported_with_its_reason() {
    let message = reply_to(
        &AsyncCommand::LoadLeaderboard,
        Outcome::Failed("connection refused".to_string()),
    );
    assert_eq!(message, AsyncMessage::SyncFailed("connection refused".to_string()));
}

#[test]
fn empty_document_is_an_empty_leaderboard() {
    assert_eq!(EMPTY_DOCUMENT, "null");
    let message = reply_to(
        &AsyncCommand::LoadLeaderboard,
        Outcome::Document { status: 200, text: "null".to_string(), entries: None },
    );
    assert_eq!(message, AsyncMessage::LeaderboardLoaded(Leaderboard { entries: vec![] }));
    let with_entries = reply_to(
        &AsyncCommand::LoadLeaderboard,
        Outcome::Document { status: 200, text: "null".to_string(), entries: Some(vec![line("a", 1)]) },
    );
    assert_eq!(with_entries, AsyncMessage::LeaderboardLoaded(Leaderboard { entries: vec![] }));
}

#[test]
fn loaded_entries_are_ranked() {
    let mut found: Vec<LeaderboardEntry> = Vec::new();
    for n in 0..14u32 {
        found.push(line(&format!("u{}", n), n * 3));
    }
    found.push(line("u2", 100));
    let message = reply_to(
        &AsyncCommand::LoadLeaderboard,
        Outcome::Document { status: 200, text: "{\"k\":{}}".to_string(), entries: Some(found) },
    );
    match message {
        AsyncMessage::LeaderboardLoaded(board) => {
            assert!(board.is_valid());
            let scores: Vec<u32> = board.entries.iter().map(|e| e.score).collect();
            assert_eq!(scores, vec![100, 39, 36, 33, 30, 27, 24, 21, 18, 15]);
            assert_eq!(board.entries[0].user_id, "u2");
        }
        other => panic!("unexpected message {:?}", other),
    }
}

#[test]
fn unreadable_document_is_a_failure() {
    let message = reply_to(
        &AsyncCommand::LoadLeaderboard,
        Outcome::Document { status: 200, text: "[1, 2".to_string(), entries: None },
    );
    assert_eq!(message, AsyncMessage::SyncFailed(REASON_UNEXPECTED_SHAPE.to_string()));
    let empty_text = reply_to(
        &AsyncCommand::LoadLeaderboard,
        Outcome::Document { status: 200, text: String::new(), entries: None },
    );
    assert_eq!(empty_text, AsyncMessage::SyncFailed(REASON_UNEXPECTED_SHAPE.to_string()));
}

#[test]
fn load_answered_as_a_write_is_a_failure() {
    let message = reply_to(&AsyncCommand::LoadLeaderboard, Outcome::Written);
    assert_eq!(message, AsyncMessage::SyncFailed(REASON_UNEXPECTED_ANSWER.to_string()));
}

#[test]
fn writes_are_reported_however_they_end() {
    let outcomes = || {
        vec![
            Outcome::Written,
            Outcome::Failed("timeout".to_string()),
            Outcome::Document { status: 200, text: "{}".to_string(), entries: Some(vec![]) },
        ]
    };
    for outcome in outcomes() {
        assert_eq!(
            reply_to(&AsyncCommand::SubmitScore(3, player()), outcome),
            AsyncMessage::ScoreSubmitted
        );
    }
    for outcome in outcomes() {
        assert_eq!(
            reply_to(&AsyncCommand::UpdateProfile(player()), outcome),
            AsyncMessage::ScoreSubmitted
        );
    }
}

#[test]
fn worker_takes_one_command_at_a_time() {
    let mut worker = SyncWorker::new("b/".to_string());
    assert!(worker.is_idle());
    assert_eq!(worker.finish(Outcome::Written), None);
    assert_eq!(
        worker.begin(AsyncCommand::LoadLeaderboard),
        Ok(Request::Fetch { url: "b/leaderboard.json".to_string() })
    );
    assert!(!worker.is_idle());
    assert_eq!(
        worker.begin(AsyncCommand::SubmitScore(3, player())),
        Err(AsyncCommand::SubmitScore(3, player()))
    );
    assert!(!worker.is_idle());
    assert_eq!(
        worker.finish(Outcome::Failed("down".to_string())),
        Some(AsyncMessage::SyncFailed("down".to_string()))
    );
    assert!(worker.is_idle());
    assert_eq!(
        worker.begin(AsyncCommand::SubmitScore(3, player())),
        Ok(Request::Patch {
            url: "b/leaderboard/abc123XYZ789.json".to_string(),
            entry: LeaderboardEntry {
                user_id: "abc123XYZ789".to_string(),
                username: "Ada".to_string(),
                score: 3,
            },
        })
    );
    assert_eq!(worker.finish(Outcome::Failed("down".to_string())), Some(AsyncMessage::ScoreSubmitted));
    assert!(worker.is_idle());
}

#[test]
fn worker_reports_in_the_order_of_the_commands() {
    let mut worker = SyncWorker::new(String::new());
    let commands = vec![
        AsyncCommand::UpdateProfile(player()),
        AsyncCommand::LoadLeaderboard,
        AsyncCommand::SubmitScore(1, player()),
        AsyncCommand::LoadLeaderboard,
    ];
    let mut reports: Vec<AsyncMessage> = Vec::new();
    for command in commands {
        let request = worker.begin(command).unwrap();
        let outcome = match request {
            Request::Fetch { .. } => Outcome::Failed("offline".to_string()),
            Request::Patch { .. } => Outcome::Written,
        };
        reports.push(worker.finish(outcome).unwrap());
    }
    assert_eq!(
        reports,
        vec![
            AsyncMessage::ScoreSubmitted,
            AsyncMessage::SyncFailed("offline".to_string()),
            AsyncMessage::ScoreSubmitted,
            AsyncMessage::SyncFailed("offline".to_string()),
        ]
    );
}

#[test]
fn answer_without_success_is_a_failure() {
    for (status, reason) in [
        (404u16, "the server answered with status 404"),
        (500, "the server answered with status 500"),
        (199, "the server answered with status 199"),
        (300, "the server answered with status 300"),
        (0, "the server answered with status 0"),
        (65535, "the server answered with status 65535"),
    ] {
        let message = reply_to(
            &AsyncCommand::LoadLeaderboard,
            Outcome::Document {
                status,
                text: "null".to_string(),
                entries: Some(vec![line("a", 1)]),
            },
        );
        assert_eq!(message, AsyncMessage::SyncFailed(reason.to_string()));
        assert!(reason.starts_with(REASON_STATUS));
    }
}

#[test]
fn every_status_of_success_is_read() {
    for status in [200u16, 201, 204, 299] {
        let message = reply_to(
            &AsyncCommand::LoadLeaderboard,
            Outcome::Document { status, text: "{}".to_string(), entries: Some(vec![line("a", 1)]) },
        );
        assert_eq!(
            message,
            AsyncMessage::LeaderboardLoaded(Leaderboard { entries: vec![line("a", 1)] })
        );
    }
}

#[test]
fn writes_are_reported_whatever_the_status() {
    let outcome = Outcome::Document { status: 500, text: String::new(), entries: None };
    assert_eq!(reply_to(&AsyncCommand::SubmitScore(3, player()), outcome), AsyncMessage::ScoreSubmitted);
}

use crate::leaderboard::{is_ranked, spec_rank};
use crate::resources::{Leaderboard, LeaderboardEntry};
use crate::text::{decimal, push_decimal};
use crate::{AsyncCommand, AsyncMessage};
use vstd::prelude::*;
use vstd::string::*;

verus! {

/// A call that the worker makes on the remote leaderboard.
#[derive(Debug, PartialEq, Eq)]
pub enum Request {
    /// Read the document at `url`.
    Fetch { url: String },
    /// Write `entry` at `url`, over what is there for the same player.
    Patch { url: String, entry: LeaderboardEntry },
}

/// What came of a [`Request`].
#[derive(Debug, PartialEq, Eq)]
pub enum Outcome {
    /// The call did not go through, or the answer could not be read.
    Failed(String),
    /// A read was answered with the status code `status` and the document
    /// `text`. `entries` holds the values of the document read as a map
    /// from keys to entries, or nothing if it cannot be read so.
    Document { status: u16, text: String, entries: Option<Vec<LeaderboardEntry>> },
    /// A write was answered.
    Written,
}

/// The reason reported for a document that is neither empty nor a map of
/// entries.
pub const REASON_UNEXPECTED_SHAPE: &'static str = "the leaderboard document has an unexpected shape";

/// The reason reported for a read that was answered as a write is.
pub const REASON_UNEXPECTED_ANSWER: &'static str = "the leaderboard read was answered without a document";

/// How the reason reported for an answer without success begins; the status
/// code follows in decimal.
pub const REASON_STATUS: &'static str = "the server answered with status ";

/// Whether a status code tells of success.
pub open spec fn is_success(status: u16) -> bool {
    200 <= status <= 299
}

/// The reason reported for an answer with the given status code.
pub open spec fn status_reason(status: u16) -> Seq<char> {
    REASON_STATUS@ + decimal(status as nat)
}

/// The document that stands for a leaderboard without entries.
pub const EMPTY_DOCUMENT: &'static str = "null";

/// The address of the whole leaderboard below `base`.
pub open spec fn leaderboard_url(base: Seq<char>) -> Seq<char> {
    base + "leaderboard.json"@
}

/// The address of the entry of the player `user_id` below `base`.
pub open spec fn entry_url(base: Seq<char>, user_id: Seq<char>) -> Seq<char> {
    base + "leaderboard/"@ + user_id + ".json"@
}

/// The entry that a command writes, for the two commands that write.
pub open spec fn written_entry(command: AsyncCommand) -> LeaderboardEntry {
    match command {
        AsyncCommand::SubmitScore(score, profile) => LeaderboardEntry {
            user_id: profile.user_id,
            username: profile.username,
            score,
        },
        AsyncCommand::UpdateProfile(profile) => LeaderboardEntry {
            user_id: profile.user_id,
            username: profile.username,
            score: profile.high_score,
        },
        AsyncCommand::LoadLeaderboard => arbitrary(),
    }
}

/// Whether `request` is the call that carries out `command` against the
/// leaderboard below `base`: a read of the whole leaderboard, or a write of
/// exactly the identifier, the name and the score under the identifier of
/// the player.
pub open spec fn carries_out(base: Seq<char>, command: AsyncCommand, request: Request) -> bool {
    match command {
        AsyncCommand::LoadLeaderboard => {
            &&& request matches Request::Fetch { url }
            &&& url@ == leaderboard_url(base)
        },
        AsyncCommand::SubmitScore(_, profile) | AsyncCommand::UpdateProfile(profile) => {
            &&& request matches Request::Patch { url, entry }
            &&& url@ == entry_url(base, profile.user_id@)
            &&& entry == written_entry(command)
        },
    }
}

/// Whether `message` is the report on the call made for `command` that
/// ended in `outcome`.
///
/// A write is reported as `ScoreSubmitted` however it ended. A read that
/// failed is reported as `SyncFailed` with the reason of the failure, and
/// so is a read that was answered without success, whatever the document.
/// A read that brought the empty document is reported as an empty
/// leaderboard, one that brought a map of entries as the ranking of those
/// entries, and any other as `SyncFailed`.
pub open spec fn reports(command: AsyncCommand, outcome: Outcome, message: AsyncMessage) -> bool {
    match command {
        AsyncCommand::SubmitScore(_, _) | AsyncCommand::UpdateProfile(_) => message
            == AsyncMessage::ScoreSubmitted,
        AsyncCommand::LoadLeaderboard => match outcome {
            Outcome::Failed(reason) => message == AsyncMessage::SyncFailed(reason),
            Outcome::Written => {
                &&& message matches AsyncMessage::SyncFailed(reason)
                &&& reason@ == REASON_UNEXPECTED_ANSWER@
            },
            Outcome::Document { status, text, entries } => if !is_success(status) {
                &&& message matches AsyncMessage::SyncFailed(reason)
                &&& reason@ == status_reason(status)
            } else if text@ == EMPTY_DOCUMENT@ {
                &&& message matches AsyncMessage::LeaderboardLoaded(board)
                &&& board@ == Seq::<LeaderboardEntry>::empty()
            } else {
                match entries {
                    Some(found) => {
                        &&& message matches AsyncMessage::LeaderboardLoaded(board)
                        &&& board@ == spec_rank(found@)
                    },
                    None => {
                        &&& message matches AsyncMessage::SyncFailed(reason)
                        &&& reason@ == REASON_UNEXPECTED_SHAPE@
                    },
                }
            },
        },
    }
}

/// The call that carries out `command` against the leaderboard below
/// `base_url`; see [`carries_out`].
pub fn request_for(base_url: &str, command: &AsyncCommand) -> (request: Request)
    ensures
        carries_out(base_url@, *command, request),
{
    match command {
        AsyncCommand::LoadLeaderboard => {
            let mut url = base_url.to_owned();
            url.append("leaderboard.json");
            Request::Fetch { url }
        },
        AsyncCommand::SubmitScore(score, profile) => {
            let entry = LeaderboardEntry {
                user_id: profile.user_id.clone(),
                username: profile.username.clone(),
                score: *score,
            };
            Request::Patch { url: url_of_entry(base_url, &profile.user_id), entry }
        },
        AsyncCommand::UpdateProfile(profile) => {
            let entry = LeaderboardEntry {
                user_id: profile.user_id.clone(),
                username: profile.username.clone(),
                score: profile.high_score,
            };
            Request::Patch { url: url_of_entry(base_url, &profile.user_id), entry }
        },
    }
}

fn url_of_entry(base_url: &str, user_id: &String) -> (url: String)
    ensures
        url@ == entry_url(base_url@, user_id@),
{
    let mut url = base_url.to_owned();
    url.append("leaderboard/");
    url.append(user_id.as_str());
    url.append(".json");
    url
}

/// The report that the worker sends to the foreground once the call made
/// for `command` has ended in `outcome`; see [`reports`].
pub fn reply_to(command: &AsyncCommand, outcome: Outcome) -> (message: AsyncMessage)
    ensures
        reports(*command, outcome, message),
        message matches AsyncMessage::LeaderboardLoaded(board) ==> is_ranked(board@),
{
    match command {
        AsyncCommand::SubmitScore(_, _) => AsyncMessage::ScoreSubmitted,
        AsyncCommand::UpdateProfile(_) => AsyncMessage::ScoreSubmitted,
        AsyncCommand::LoadLeaderboard => match outcome {
            Outcome::Failed(reason) => AsyncMessage::SyncFailed(reason),
            Outcome::Written => AsyncMessage::SyncFailed(REASON_UNEXPECTED_ANSWER.to_owned()),
            Outcome::Document { status, text, entries } => {
                if status < 200 || status > 299 {
                    let mut reason = REASON_STATUS.to_owned();
                    push_decimal(&mut reason, status as u32);
                    AsyncMessage::SyncFailed(reason)
                } else if text == EMPTY_DOCUMENT.to_owned() {
                    AsyncMessage::LeaderboardLoaded(Leaderboard { entries: Vec::new() })
                } else {
                    match entries {
                        Some(found) => AsyncMessage::LeaderboardLoaded(Leaderboard::rank(found)),
                        None => AsyncMessage::SyncFailed(REASON_UNEXPECTED_SHAPE.to_owned()),
                    }
                }
            },
        },
    }
}

/// The worker as the protocol sees it: the leaderboard it talks to, and the
/// command it is busy with. It takes up one command at a time and reports
/// on it before it takes up the next.
#[derive(Debug)]
pub struct SyncWorker {
    base_url: String,
    in_flight: Option<AsyncCommand>,
}

impl SyncWorker {
    /// The address below which the leaderboard lies.
    pub closed spec fn base(&self) -> Seq<char> {
        self.base_url@
    }

    /// The command that the worker is busy with, if it is busy.
    pub closed spec fn in_flight(&self) -> Option<AsyncCommand> {
        self.in_flight
    }

    /// A worker for the leaderboard below `base_url`, busy with nothing.
    pub fn new(base_url: String) -> (worker: Self)
        ensures
            worker.base() == base_url@,
            worker.in_flight() is None,
    {
        SyncWorker { base_url, in_flight: None }
    }

    /// Whether the worker is free to take up a command.
    pub fn is_idle(&self) -> (idle: bool)
        ensures
            idle == (self.in_flight() is None),
    {
        self.in_flight.is_none()
    }

    /// Takes up `command`. A worker that is free becomes busy with the
    /// command and returns the call to make for it. A worker that is busy
    /// stays as it is and hands the command back.
    pub fn begin(&mut self, command: AsyncCommand) -> (started: Result<Request, AsyncCommand>)
        ensures
            final(self).base() == old(self).base(),
            match old(self).in_flight() {
                None => {
                    &&& started matches Ok(request)
                    &&& carries_out(old(self).base(), command, request)
                    &&& final(self).in_flight() == Some(command)
                },
                Some(_) => {
                    &&& started == Err::<Request, AsyncCommand>(command)
                    &&& final(self).in_flight() == old(self).in_flight()
                },
            },
    {
        if self.in_flight.is_some() {
            return Err(command);
        }
        let request = request_for(self.base_url.as_str(), &command);
        self.in_flight = Some(command);
        Ok(request)
    }

    /// Ends the call that the worker is busy with. A worker that is busy
    /// becomes free and returns the report on its command; a worker that is
    /// free returns nothing.
    pub fn finish(&mut self, outcome: Outcome) -> (report: Option<AsyncMessage>)
        ensures
            final(self).base() == old(self).base(),
            final(self).in_flight() is None,
            match old(self).in_flight() {
                Some(command) => {
                    &&& report matches Some(message)
                    &&& reports(command, outcome, message)
                },
                None => report is None,
            },
    {
        match self.in_flight.take() {
            Some(command) => Some(reply_to(&command, outcome)),
            None => None,
        }
    }
}

} // verus!

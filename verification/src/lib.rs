//! A snake game on a wrapped grid, with a player profile kept on disk and a
//! leaderboard kept in step with a remote service.
//!
//! The crate holds the rules: how a round advances (`game_logic`), how
//! results are ranked (`leaderboard`), what the background worker asks of
//! the remote service and reports back (`sync`), what the key-value store
//! keeps in memory (`database`), and how the foreground reacts to a frame
//! (`SnakeApp`). Windows, files and the network belong to the program
//! around it.

use vstd::prelude::*;

pub mod constants;
pub mod database;
pub mod game_logic;
pub mod leaderboard;
pub mod random;
pub mod resources;
pub mod sync;
pub mod text;

use crate::constants::{DEFAULT_APPLE_COLOR, DEFAULT_BACKGROUND_COLOR, DEFAULT_SNAKE_COLOR};
use crate::game_logic::{
    handle_input, lemma_snake_fits_field, spec_handle_input, stepped, update_game, Input,
    StepResult,
};
use crate::leaderboard::{is_ranked, spec_rank};
use crate::resources::{
    Direction, Game, GameState, GameView, Leaderboard, LeaderboardEntry, Screen, UserProfile,
};

verus! {

/// What the background worker reports to the foreground.
#[derive(Debug, PartialEq, Eq)]
pub enum AsyncMessage {
    /// The remote leaderboard was read.
    LeaderboardLoaded(Leaderboard),
    /// A write to the remote leaderboard has come to its end, whether it
    /// went through or not.
    ScoreSubmitted,
    /// A read of the remote leaderboard failed, for the reason given.
    SyncFailed(String),
}

/// What the foreground asks of the background worker.
#[derive(Debug, PartialEq, Eq)]
pub enum AsyncCommand {
    /// Read the remote leaderboard.
    LoadLeaderboard,
    /// Write the given score under the player of the profile.
    SubmitScore(u32, UserProfile),
    /// Write the name and the best score of the profile.
    UpdateProfile(UserProfile),
}

/// What the player does on a screen.
#[derive(Debug, PartialEq, Eq)]
pub enum UserAction {
    /// Choose a screen on the main menu.
    Open(Screen),
    /// Leave the screen for the main menu.
    Back,
    /// Start a new round after one has ended.
    PlayAgain,
    /// Turn the snake with the on-screen pad.
    Steer(Direction),
    /// Pause the round, or resume it.
    TogglePause,
    /// Ask for the leaderboard to be read again.
    Refresh,
    /// Give the player another name.
    Rename(String),
    /// Give the board other colours.
    Recolor { snake: [u8; 3], background: [u8; 3], apple: [u8; 3] },
    /// Give the board its standard colours again.
    ResetColors,
}

/// What one frame brings: whether the key that leaves a screen was pressed,
/// the reports of the worker that have come in, what the player asked of
/// the round, and the time since the frame before, in microseconds.
#[derive(Debug)]
pub struct Frame {
    pub escape: bool,
    pub messages: Vec<AsyncMessage>,
    pub input: Input,
    pub dt_micros: u64,
}

/// What the surroundings have to do after a call: leave the program, hand
/// the commands to the worker in the order given, store the profile, and
/// store the leaderboard.
#[derive(Debug, PartialEq, Eq)]
pub struct Reaction {
    pub exit: bool,
    pub commands: Vec<AsyncCommand>,
    pub save_profile: bool,
    pub save_leaderboard: bool,
}

/// The foreground of the application: the round being played, the screen
/// shown, the profile of the player and the leaderboard last known.
#[derive(Debug)]
pub struct SnakeApp {
    game: Game,
    state: GameState,
    profile: UserProfile,
    leaderboard: Leaderboard,
}

/// The foreground as the contracts see it.
pub struct AppView {
    pub game: GameView,
    pub screen: Screen,
    pub profile: UserProfile,
    pub leaderboard: Seq<LeaderboardEntry>,
}

/// A round that has just begun.
pub open spec fn fresh_game() -> GameView {
    GameView {
        snake: seq![(10i32, 10i32), (10i32, 11i32), (10i32, 12i32)],
        direction: Direction::Up,
        pending: None,
        food: (5i32, 5i32),
        score: 0,
        game_over: false,
        paused: false,
        timer: 0,
    }
}

impl AppView {
    /// What the foreground keeps to: the round is coherent, its score
    /// counts exactly the cells that the snake has grown by since its start
    /// with three, and the leaderboard is ranked.
    pub open spec fn wf(self) -> bool {
        &&& self.game.coherent()
        &&& self.game.score + 3 == self.game.snake.len()
        &&& is_ranked(self.leaderboard)
    }
}

/// The screen shown after `action` on `screen`: the main menu leads to the
/// screen chosen, `Back` leads to the main menu, and nothing else changes
/// the screen.
pub open spec fn next_screen(screen: Screen, action: UserAction) -> Screen {
    match action {
        UserAction::Open(target) => if screen == Screen::MainMenu {
            target
        } else {
            screen
        },
        UserAction::Back => Screen::MainMenu,
        _ => screen,
    }
}

/// The round after the screen has changed from `from` to `to`: leaving the
/// playing screen ends the round and sets up a new one.
pub open spec fn game_after_leaving(game: GameView, from: Screen, to: Screen) -> GameView {
    if from == Screen::Playing && to != Screen::Playing {
        fresh_game()
    } else {
        game
    }
}

/// The foreground after the key that leaves a screen, and whether the
/// program is to end: on the main menu the program ends, from any other
/// screen the main menu is shown.
pub open spec fn spec_escape(app: AppView) -> (AppView, bool) {
    if app.screen == Screen::MainMenu {
        (app, true)
    } else {
        (
            AppView {
                screen: Screen::MainMenu,
                game: game_after_leaving(app.game, app.screen, Screen::MainMenu),
                ..app
            },
            false,
        )
    }
}

/// The commands that an optional command stands for: itself, or none.
pub open spec fn as_commands(command: Option<AsyncCommand>) -> Seq<AsyncCommand> {
    match command {
        Some(command) => seq![command],
        None => Seq::empty(),
    }
}

/// The foreground after a report of the worker, and the command that
/// answers it. A leaderboard that was read replaces the one known, ranked
/// once more. A write that has ended is answered by a new read. A failure
/// changes nothing.
pub open spec fn spec_receive(app: AppView, message: AsyncMessage) -> (
    AppView,
    Option<AsyncCommand>,
) {
    match message {
        AsyncMessage::LeaderboardLoaded(board) => (
            AppView { leaderboard: spec_rank(board@), ..app },
            None,
        ),
        AsyncMessage::ScoreSubmitted => (app, Some(AsyncCommand::LoadLeaderboard)),
        AsyncMessage::SyncFailed(_) => (app, None),
    }
}

/// The foreground after the reports of `messages`, in their order, and the
/// commands that answer them, in the same order.
pub open spec fn spec_receive_all(app: AppView, messages: Seq<AsyncMessage>) -> (
    AppView,
    Seq<AsyncCommand>,
)
    decreases messages.len(),
{
    if messages.len() == 0 {
        (app, Seq::empty())
    } else {
        let (before, commands) = spec_receive_all(app, messages.drop_last());
        let (after, answer) = spec_receive(before, messages.last());
        (after, commands + as_commands(answer))
    }
}

/// Whether one of the reports is a leaderboard that was read.
pub open spec fn brings_leaderboard(messages: Seq<AsyncMessage>) -> bool {
    exists|i: int| 0 <= i < messages.len() && (#[trigger] messages[i]) is LeaderboardLoaded
}

/// What playing does in one frame: `after`, `submit` and `save` are a
/// possible outcome for the foreground `before`.
///
/// Off the playing screen nothing happens. On it the round takes the input
/// and then lets the time pass as [`stepped`] says. When the round ends in
/// this frame the best score of the profile rises to the score of the round
/// if that is strictly greater, the score is handed to the worker with the
/// profile, and the profile is to be stored if its best score rose.
pub open spec fn played(
    before: AppView,
    input: Input,
    dt_micros: u64,
    after: AppView,
    submit: Option<AsyncCommand>,
    save: bool,
) -> bool {
    if before.screen != Screen::Playing {
        after == before && submit is None && !save
    } else {
        let steered = spec_handle_input(before.game, input);
        let finished = after.game.game_over && !steered.game_over;
        let improved = finished && steered.score > before.profile.high_score;
        &&& stepped(
            steered,
            dt_micros,
            None,
            after.game,
            if finished {
                StepResult::GameOver
            } else {
                StepResult::Continue
            },
        )
        &&& after.screen == before.screen
        &&& after.leaderboard == before.leaderboard
        &&& after.profile == (UserProfile {
            high_score: if improved {
                steered.score
            } else {
                before.profile.high_score
            },
            ..before.profile
        })
        &&& submit == if finished {
            Some(AsyncCommand::SubmitScore(steered.score, after.profile))
        } else {
            None
        }
        &&& save == improved
    }
}

/// What one frame does: `after` and `reaction` are a possible outcome for
/// the foreground `before`.
///
/// The key that leaves a screen is dealt with first; if it ends the program
/// nothing else happens. Then the reports of the worker are taken in, and
/// then the round is played. The commands come in that order. The
/// leaderboard is to be stored if one was read.
pub open spec fn updated(before: AppView, frame: Frame, after: AppView, reaction: Reaction) -> bool {
    let (left, exit) = if frame.escape {
        spec_escape(before)
    } else {
        (before, false)
    };
    if exit {
        &&& after == before
        &&& reaction.exit
        &&& reaction.commands@ == Seq::<AsyncCommand>::empty()
        &&& !reaction.save_profile
        &&& !reaction.save_leaderboard
    } else {
        let (received, answers) = spec_receive_all(left, frame.messages@);
        let submit = if reaction.commands@.len() > answers.len() {
            Some(reaction.commands@.last())
        } else {
            None
        };
        &&& !reaction.exit
        &&& reaction.commands@ == answers + as_commands(submit)
        &&& played(received, frame.input, frame.dt_micros, after, submit, reaction.save_profile)
        &&& reaction.save_leaderboard == brings_leaderboard(frame.messages@)
    }
}

/// The foreground after something the player did on a screen, the commands
/// for the worker and whether the profile is to be stored.
///
/// The buttons of the main menu and `Back` change the screen as
/// [`next_screen`] says. The other actions count on the screen that offers
/// them only: a new round and the pad on the playing screen, a new read on
/// the leaderboard screen, and changes to the name and the colours on the
/// profile screen, each of which is stored and handed to the worker. The
/// identifier and the best score of the profile never change here.
pub open spec fn spec_act(app: AppView, action: UserAction) -> (AppView, Seq<AsyncCommand>, bool) {
    match action {
        UserAction::Open(_) | UserAction::Back => {
            let to = next_screen(app.screen, action);
            (
                AppView { screen: to, game: game_after_leaving(app.game, app.screen, to), ..app },
                Seq::empty(),
                false,
            )
        },
        UserAction::PlayAgain => if app.screen == Screen::Playing && app.game.game_over {
            (AppView { game: fresh_game(), ..app }, Seq::empty(), false)
        } else {
            (app, Seq::empty(), false)
        },
        UserAction::Steer(wanted) => if app.screen == Screen::Playing {
            (
                AppView { game: spec_handle_input(app.game, Input::Steer(wanted)), ..app },
                Seq::empty(),
                false,
            )
        } else {
            (app, Seq::empty(), false)
        },
        UserAction::TogglePause => if app.screen == Screen::Playing {
            (
                AppView { game: spec_handle_input(app.game, Input::TogglePause), ..app },
                Seq::empty(),
                false,
            )
        } else {
            (app, Seq::empty(), false)
        },
        UserAction::Refresh => if app.screen == Screen::Leaderboard {
            (app, seq![AsyncCommand::LoadLeaderboard], false)
        } else {
            (app, Seq::empty(), false)
        },
        UserAction::Rename(username) => edited(app, UserProfile { username, ..app.profile }),
        UserAction::Recolor { snake, background, apple } => edited(
            app,
            UserProfile {
                snake_color: snake,
                background_color: background,
                apple_color: apple,
                ..app.profile
            },
        ),
        UserAction::ResetColors => edited(
            app,
            UserProfile {
                snake_color: DEFAULT_SNAKE_COLOR,
                background_color: DEFAULT_BACKGROUND_COLOR,
                apple_color: DEFAULT_APPLE_COLOR,
                ..app.profile
            },
        ),
    }
}

/// The outcome of an edit that turns the profile into `profile`: on the
/// profile screen the profile is replaced, stored and handed to the worker,
/// elsewhere nothing happens.
pub open spec fn edited(app: AppView, profile: UserProfile) -> (AppView, Seq<AsyncCommand>, bool) {
    if app.screen == Screen::Profile {
        (AppView { profile, ..app }, seq![AsyncCommand::UpdateProfile(profile)], true)
    } else {
        (app, Seq::empty(), false)
    }
}

impl View for SnakeApp {
    type V = AppView;

    closed spec fn view(&self) -> AppView {
        AppView {
            game: self.game@,
            screen: self.state.current_screen,
            profile: self.profile,
            leaderboard: self.leaderboard@,
        }
    }
}

impl SnakeApp {
    /// What the foreground keeps to; see [`AppView::wf`].
    pub open spec fn wf(&self) -> bool {
        self@.wf()
    }

    /// The foreground at the start of the program, and the first command
    /// for the worker: the main menu, a fresh round, the profile that was
    /// stored or else the profile of a new player, the leaderboard that was
    /// stored, ranked, or else none, and a read of the leaderboard under
    /// way.
    pub fn new(stored: Option<UserProfile>, cached: Option<Leaderboard>) -> (start: (
        SnakeApp,
        AsyncCommand,
    ))
        ensures
            start.0.wf(),
            start.0@.game == fresh_game(),
            start.0@.screen == Screen::MainMenu,
            start.0@.leaderboard == match cached {
                Some(board) => spec_rank(board@),
                None => Seq::empty(),
            },
            cached matches Some(board) ==> (is_ranked(board@) ==> start.0@.leaderboard == board@),
            stored matches Some(profile) ==> start.0@.profile == profile,
            stored is None ==> {
                &&& crate::resources::is_random_id(start.0@.profile.user_id@)
                &&& crate::resources::is_placeholder_name(start.0@.profile.username@)
                &&& start.0@.profile.snake_color == DEFAULT_SNAKE_COLOR
                &&& start.0@.profile.background_color == DEFAULT_BACKGROUND_COLOR
                &&& start.0@.profile.apple_color == DEFAULT_APPLE_COLOR
                &&& start.0@.profile.high_score == 0
            },
            start.1 == AsyncCommand::LoadLeaderboard,
    {
        let profile = match stored {
            Some(profile) => profile,
            None => UserProfile::default(),
        };
        let leaderboard = match cached {
            Some(board) => {
                proof {
                    if is_ranked(board@) {
                        crate::leaderboard::lemma_merge_self(board@);
                    }
                }
                Leaderboard::rank(board.entries)
            },
            None => Leaderboard::default(),
        };
        let app = SnakeApp {
            game: Game::default(),
            state: GameState::default(),
            profile,
            leaderboard,
        };
        (app, AsyncCommand::LoadLeaderboard)
    }

    /// Decides `wf` at run time.
    pub fn is_valid(&self) -> (valid: bool)
        ensures
            valid == self.wf(),
    {
        self.game.is_coherent() && self.game.snake.len() >= 3 && self.game.score as usize
            == self.game.snake.len() - 3 && self.leaderboard.is_valid()
    }

    /// The round being played.
    pub fn game(&self) -> (game: &Game)
        ensures
            game@ == self@.game,
    {
        &self.game
    }

    /// The screen shown.
    pub fn state(&self) -> (state: &GameState)
        ensures
            state.current_screen == self@.screen,
    {
        &self.state
    }

    /// The profile of the player.
    pub fn profile(&self) -> (profile: &UserProfile)
        ensures
            *profile == self@.profile,
    {
        &self.profile
    }

    /// The leaderboard last known.
    pub fn leaderboard(&self) -> (board: &Leaderboard)
        ensures
            board@ == self@.leaderboard,
    {
        &self.leaderboard
    }

    /// Deals with the key that leaves a screen; see [`spec_escape`].
    /// Returns whether the program is to end.
    pub fn press_escape(&mut self) -> (exit: bool)
        requires
            old(self).wf(),
        ensures
            (final(self)@, exit) == spec_escape(old(self)@),
            final(self).wf(),
    {
        match self.state.current_screen {
            Screen::MainMenu => true,
            Screen::Playing => {
                self.state.current_screen = Screen::MainMenu;
                self.game = Game::default();
                false
            },
            _ => {
                self.state.current_screen = Screen::MainMenu;
                false
            },
        }
    }

    /// Takes in a report of the worker; see [`spec_receive`]. Returns the
    /// command that answers it, if there is one.
    pub fn receive(&mut self, message: AsyncMessage) -> (answer: Option<AsyncCommand>)
        requires
            old(self).wf(),
        ensures
            (final(self)@, answer) == spec_receive(old(self)@, message),
            final(self).wf(),
            message is SyncFailed ==> final(self)@ == old(self)@ && answer is None,
            message matches AsyncMessage::LeaderboardLoaded(board) ==> (is_ranked(board@)
                ==> final(self)@.leaderboard == board@),
    {
        match message {
            AsyncMessage::LeaderboardLoaded(board) => {
                proof {
                    if is_ranked(board@) {
                        crate::leaderboard::lemma_merge_self(board@);
                    }
                }
                self.leaderboard = Leaderboard::rank(board.entries);
                None
            },
            AsyncMessage::ScoreSubmitted => Some(AsyncCommand::LoadLeaderboard),
            AsyncMessage::SyncFailed(_) => None,
        }
    }

    /// Plays the round for one frame; see [`played`]. Returns the command
    /// that hands the score of a round that has ended to the worker, and
    /// whether the profile is to be stored.
    pub fn play(&mut self, input: Input, dt_micros: u64) -> (outcome: (Option<AsyncCommand>, bool))
        requires
            old(self).wf(),
        ensures
            played(old(self)@, input, dt_micros, final(self)@, outcome.0, outcome.1),
            final(self).wf(),
    {
        if self.state.current_screen != Screen::Playing {
            return (None, false);
        }
        handle_input(input, &mut self.game);
        proof {
            lemma_snake_fits_field(self.game.snake@);
        }
        let best = self.profile.high_score;
        let finished = update_game(dt_micros, &mut self.game, &mut self.profile);
        if finished {
            let improved = self.profile.high_score > best;
            (Some(AsyncCommand::SubmitScore(self.game.score, self.profile.clone())), improved)
        } else {
            (None, false)
        }
    }

    /// Deals with something the player did on a screen; see [`spec_act`].
    pub fn act(&mut self, action: UserAction) -> (reaction: Reaction)
        requires
            old(self).wf(),
        ensures
            (final(self)@, reaction.commands@, reaction.save_profile) == spec_act(
                old(self)@,
                action,
            ),
            !reaction.exit,
            !reaction.save_leaderboard,
            final(self).wf(),
            final(self)@.profile.user_id == old(self)@.profile.user_id,
            final(self)@.profile.high_score == old(self)@.profile.high_score,
    {
        let mut commands: Vec<AsyncCommand> = Vec::new();
        let mut save_profile = false;
        let screen = self.state.current_screen;
        match action {
            UserAction::Open(target) => {
                if screen == Screen::MainMenu {
                    self.state.current_screen = target;
                }
            },
            UserAction::Back => {
                self.state.current_screen = Screen::MainMenu;
                if screen == Screen::Playing {
                    self.game = Game::default();
                }
            },
            UserAction::PlayAgain => {
                if screen == Screen::Playing && self.game.game_over {
                    self.game = Game::default();
                }
            },
            UserAction::Steer(wanted) => {
                if screen == Screen::Playing {
                    handle_input(Input::Steer(wanted), &mut self.game);
                }
            },
            UserAction::TogglePause => {
                if screen == Screen::Playing {
                    handle_input(Input::TogglePause, &mut self.game);
                }
            },
            UserAction::Refresh => {
                if screen == Screen::Leaderboard {
                    commands.push(AsyncCommand::LoadLeaderboard);
                }
            },
            UserAction::Rename(username) => {
                if screen == Screen::Profile {
                    self.profile.username = username;
                    commands.push(AsyncCommand::UpdateProfile(self.profile.clone()));
                    save_profile = true;
                }
            },
            UserAction::Recolor { snake, background, apple } => {
                if screen == Screen::Profile {
                    self.profile.snake_color = snake;
                    self.profile.background_color = background;
                    self.profile.apple_color = apple;
                    commands.push(AsyncCommand::UpdateProfile(self.profile.clone()));
                    save_profile = true;
                }
            },
            UserAction::ResetColors => {
                if screen == Screen::Profile {
                    self.profile.snake_color = DEFAULT_SNAKE_COLOR;
                    self.profile.background_color = DEFAULT_BACKGROUND_COLOR;
                    self.profile.apple_color = DEFAULT_APPLE_COLOR;
                    commands.push(AsyncCommand::UpdateProfile(self.profile.clone()));
                    save_profile = true;
                }
            },
        }
        assert(commands@ =~= spec_act(old(self)@, action).1);
        Reaction { exit: false, commands, save_profile, save_leaderboard: false }
    }

    /// Runs one frame; see [`updated`].
    pub fn update(&mut self, frame: Frame) -> (reaction: Reaction)
        requires
            old(self).wf(),
        ensures
            updated(old(self)@, frame, final(self)@, reaction),
            final(self).wf(),
    {
        if frame.escape {
            if self.press_escape() {
                return Reaction {
                    exit: true,
                    commands: Vec::new(),
                    save_profile: false,
                    save_leaderboard: false,
                };
            }
        }
        let ghost left = self@;
        let mut commands: Vec<AsyncCommand> = Vec::new();
        let mut save_leaderboard = false;
        let Frame { escape: _, messages, input, dt_micros } = frame;
        assert(messages@.take(0) =~= Seq::<AsyncMessage>::empty());
        for message in it: messages
            invariant
                self.wf(),
                it.seq() == messages@,
                (self@, commands@) == spec_receive_all(left, messages@.take(it.index() as int)),
                save_leaderboard == brings_leaderboard(messages@.take(it.index() as int)),
        {
            proof {
                let n = it.index() as int;
                let next = messages@.take(n + 1);
                assert(next.drop_last() =~= messages@.take(n));
                assert(next.last() == messages@[n]);
            }
            let ghost gathered = commands@;
            proof {
                let n = it.index() as int;
                let seen = messages@.take(n);
                let next = messages@.take(n + 1);
                if brings_leaderboard(seen) {
                    let i = choose|i: int| 0 <= i < seen.len() && (#[trigger] seen[i]) is LeaderboardLoaded;
                    assert(next[i] is LeaderboardLoaded);
                }
                if message is LeaderboardLoaded {
                    assert(next[n] is LeaderboardLoaded);
                }
                if brings_leaderboard(next) {
                    let i = choose|i: int| 0 <= i < next.len() && (#[trigger] next[i]) is LeaderboardLoaded;
                    if i < n {
                        assert(seen[i] is LeaderboardLoaded);
                    }
                }
            }
            if let AsyncMessage::LeaderboardLoaded(_) = &message {
                save_leaderboard = true;
            }
            let answer = self.receive(message);
            match answer {
                Some(command) => {
                    commands.push(command);
                },
                None => {},
            }
            assert(commands@ =~= gathered + as_commands(answer));
        }
        assert(messages@.take(messages@.len() as int) =~= messages@);
        let ghost answers = commands@;
        let (submit, save_profile) = self.play(input, dt_micros);
        match submit {
            Some(command) => {
                commands.push(command);
            },
            None => {},
        }
        assert(commands@ =~= answers + as_commands(submit));
        Reaction { exit: false, commands, save_profile, save_leaderboard }
    }
}

} // verus!

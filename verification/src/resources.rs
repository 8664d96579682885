use crate::constants::{
    DEFAULT_APPLE_COLOR, DEFAULT_BACKGROUND_COLOR, DEFAULT_SNAKE_COLOR, GRID_SIZE, USER_ID_LENGTH,
};
use crate::game_logic::{neighbour, spec_neighbour};
use crate::random::{is_ascii_alphanumeric, random_alphanumeric, random_in_range};
use crate::text::{decimal, push_decimal};
use vstd::prelude::*;
use vstd::string::*;

verus! {

/// The screens of the application. Exactly one is shown at a time.
#[derive(Clone, Copy, PartialEq, Eq, Structural, Debug)]
pub enum Screen {
    MainMenu,
    Playing,
    Settings,
    Leaderboard,
    Profile,
    Share,
}

impl Default for Screen {
    fn default() -> (screen: Self)
        ensures
            screen == Screen::MainMenu,
    {
        Screen::MainMenu
    }
}

/// A heading of the snake.
#[derive(Clone, Copy, PartialEq, Eq, Structural, Debug)]
pub enum Direction {
    Up,
    Down,
    Left,
    Right,
}

impl Direction {
    /// The heading that points the other way.
    pub open spec fn spec_opposite(self) -> Direction {
        match self {
            Direction::Up => Direction::Down,
            Direction::Down => Direction::Up,
            Direction::Left => Direction::Right,
            Direction::Right => Direction::Left,
        }
    }

    /// The heading after a request to turn towards `wanted`: a request to
    /// reverse on the spot is ignored, any other request is followed.
    pub open spec fn spec_turned(self, wanted: Direction) -> Direction {
        if wanted == self.spec_opposite() {
            self
        } else {
            wanted
        }
    }

    #[verifier::when_used_as_spec(spec_opposite)]
    pub fn opposite(self) -> (other: Direction)
        ensures
            other == self.spec_opposite(),
    {
        match self {
            Direction::Up => Direction::Down,
            Direction::Down => Direction::Up,
            Direction::Left => Direction::Right,
            Direction::Right => Direction::Left,
        }
    }

    #[verifier::when_used_as_spec(spec_turned)]
    pub fn turned(self, wanted: Direction) -> (heading: Direction)
        ensures
            heading == self.spec_turned(wanted),
    {
        if wanted == self.opposite() {
            self
        } else {
            wanted
        }
    }
}

/// Which screen the application shows.
#[derive(Debug, PartialEq, Eq)]
pub struct GameState {
    pub current_screen: Screen,
}

impl Default for GameState {
    fn default() -> (state: Self)
        ensures
            state.current_screen == Screen::MainMenu,
    {
        GameState { current_screen: Screen::MainMenu }
    }
}

/// A cell of the playing field, as column and row.
pub type Position = (i32, i32);

/// Whether `cell` lies on the playing field.
pub open spec fn in_grid(cell: Position) -> bool {
    0 <= cell.0 < GRID_SIZE && 0 <= cell.1 < GRID_SIZE
}

/// One round of the game.
///
/// `snake` lists the cells of the body from the head to the tail.
/// `direction` is the heading of the last move, and `pending` the heading
/// that the player has asked for since; it waits there until the snake next
/// advances. `timer` holds the microseconds gathered since the snake last
/// advanced.
#[derive(Debug, PartialEq, Eq)]
pub struct Game {
    pub snake: Vec<Position>,
    pub direction: Direction,
    pub pending: Option<Direction>,
    pub food: Position,
    pub score: u32,
    pub game_over: bool,
    pub paused: bool,
    pub timer: u64,
}

/// A round as the contracts see it: the fields of a [`Game`] with the snake
/// as a sequence of cells.
pub struct GameView {
    pub snake: Seq<Position>,
    pub direction: Direction,
    pub pending: Option<Direction>,
    pub food: Position,
    pub score: u32,
    pub game_over: bool,
    pub paused: bool,
    pub timer: u64,
}

impl View for Game {
    type V = GameView;

    open spec fn view(&self) -> GameView {
        GameView {
            snake: self.snake@,
            direction: self.direction,
            pending: self.pending,
            food: self.food,
            score: self.score,
            game_over: self.game_over,
            paused: self.paused,
            timer: self.timer,
        }
    }
}

impl GameView {
    /// The state that play relies on: the snake has a head, lies on the
    /// field and never covers a cell twice, and the food lies on the field.
    pub open spec fn wf(self) -> bool {
        &&& self.snake.len() >= 1
        &&& forall|i: int| 0 <= i < self.snake.len() ==> in_grid(#[trigger] self.snake[i])
        &&& self.snake.no_duplicates()
        &&& in_grid(self.food)
    }

    /// Whether `direction` is the heading of the last move: while the round
    /// is on and the snake has a neck, the head lies one step from the neck
    /// towards `direction`.
    pub open spec fn holds_course(self) -> bool {
        !self.game_over && self.snake.len() >= 2 ==> self.snake[0] == spec_neighbour(
            self.snake[1],
            self.direction,
        )
    }

    /// Whether the score has been earned: it does not exceed the length of
    /// the snake, since every point is a cell that the snake has grown by.
    pub open spec fn counts_growth(self) -> bool {
        self.score <= self.snake.len()
    }

    /// What a round that is only ever played keeps to, on top of `wf`: its
    /// heading is that of the last move and its score has been earned. A
    /// fresh round starts so and playing keeps it so.
    pub open spec fn coherent(self) -> bool {
        &&& self.wf()
        &&& self.holds_course()
        &&& self.counts_growth()
    }
}

impl Game {
    /// The state that play relies on; see [`GameView::wf`].
    pub open spec fn wf(&self) -> bool {
        self@.wf()
    }

    /// What a round that is only ever played keeps to; see
    /// [`GameView::coherent`].
    pub open spec fn coherent(&self) -> bool {
        self@.coherent()
    }

    /// Decides `wf` at run time.
    pub fn is_valid(&self) -> (valid: bool)
        ensures
            valid == self.wf(),
    {
        if self.snake.len() == 0 || !cell_in_grid(self.food) {
            return false;
        }
        let mut i: usize = 0;
        while i < self.snake.len()
            invariant
                i <= self.snake@.len(),
                forall|k: int| 0 <= k < i ==> in_grid(#[trigger] self.snake@[k]),
                forall|k: int, l: int| 0 <= k < l < i ==> self.snake@[k] != self.snake@[l],
            decreases self.snake@.len() - i,
        {
            let cell = self.snake[i];
            if !cell_in_grid(cell) {
                return false;
            }
            let mut j: usize = 0;
            while j < i
                invariant
                    j <= i < self.snake@.len(),
                    cell == self.snake@[i as int],
                    forall|k: int| 0 <= k < j ==> self.snake@[k] != cell,
                decreases i - j,
            {
                let other = self.snake[j];
                if other.0 == cell.0 && other.1 == cell.1 {
                    return false;
                }
                j += 1;
            }
            i += 1;
        }
        true
    }

    /// Decides `coherent` at run time.
    pub fn is_coherent(&self) -> (coherent: bool)
        ensures
            coherent == self.coherent(),
    {
        if !self.is_valid() {
            return false;
        }
        if self.score as usize > self.snake.len() {
            return false;
        }
        if !self.game_over && self.snake.len() >= 2 {
            let ahead = neighbour(self.snake[1], self.direction);
            let head = self.snake[0];
            if ahead.0 != head.0 || ahead.1 != head.1 {
                return false;
            }
        }
        true
    }
}

/// Decides `in_grid` at run time.
pub fn cell_in_grid(cell: Position) -> (inside: bool)
    ensures
        inside == in_grid(cell),
{
    0 <= cell.0 && cell.0 < GRID_SIZE && 0 <= cell.1 && cell.1 < GRID_SIZE
}

impl Default for Game {
    /// A fresh round: a snake of three cells in the middle of the field,
    /// heading up, with the food at `(5, 5)`.
    fn default() -> (game: Self)
        ensures
            game.snake@ == seq![(10i32, 10i32), (10i32, 11i32), (10i32, 12i32)],
            game.direction == Direction::Up,
            game.pending is None,
            game.food == (5i32, 5i32),
            game.score == 0,
            !game.game_over,
            !game.paused,
            game.timer == 0,
            game.coherent(),
    {
        let mut snake: Vec<Position> = Vec::new();
        snake.push((10, 10));
        snake.push((10, 11));
        snake.push((10, 12));
        assert(snake@ =~= seq![(10i32, 10i32), (10i32, 11i32), (10i32, 12i32)]);
        Game {
            snake,
            direction: Direction::Up,
            pending: None,
            food: (5, 5),
            score: 0,
            game_over: false,
            paused: false,
            timer: 0,
        }
    }
}

/// The player: a lasting identifier, a display name, the colours of the
/// board and the best score so far.
#[derive(Debug, PartialEq, Eq)]
pub struct UserProfile {
    pub user_id: String,
    pub username: String,
    pub snake_color: [u8; 3],
    pub background_color: [u8; 3],
    pub apple_color: [u8; 3],
    pub high_score: u32,
}

impl Clone for UserProfile {
    fn clone(&self) -> (copy: Self)
        ensures
            copy == *self,
    {
        UserProfile {
            user_id: self.user_id.clone(),
            username: self.username.clone(),
            snake_color: self.snake_color,
            background_color: self.background_color,
            apple_color: self.apple_color,
            high_score: self.high_score,
        }
    }
}

/// Whether `id` has the shape of a drawn identifier: twelve characters, each
/// an ASCII letter or digit.
pub open spec fn is_random_id(id: Seq<char>) -> bool {
    &&& id.len() == USER_ID_LENGTH
    &&& forall|i: int|
        0 <= i < id.len() ==> (#[trigger] id[i]) as u32 <= 0x7f && is_ascii_alphanumeric(
            id[i] as u8,
        )
}

/// Whether `name` is a placeholder name: the word `Player`, a space and a
/// number from 1000 up to 9998 in decimal.
pub open spec fn is_placeholder_name(name: Seq<char>) -> bool {
    exists|suffix: nat| 1000 <= suffix < 9999 && name == #[trigger] placeholder_name(suffix)
}

/// The placeholder name with the given number.
pub open spec fn placeholder_name(suffix: nat) -> Seq<char> {
    "Player "@ + decimal(suffix)
}

/// The text that spells the given bytes, one character for each byte.
pub open spec fn spelled(bytes: Seq<u8>) -> Seq<char> {
    Seq::new(bytes.len(), |i: int| bytes[i] as char)
}

/// The identifier made of the bytes drawn, in the order drawn.
pub fn identifier_from(drawn: &Vec<u8>) -> (id: String)
    ensures
        id@ == spelled(drawn@),
        drawn@.len() == USER_ID_LENGTH && (forall|i: int|
            0 <= i < drawn@.len() ==> is_ascii_alphanumeric(#[trigger] drawn@[i]))
            ==> is_random_id(id@),
{
    let mut id = String::new();
    let mut n: usize = 0;
    while n < drawn.len()
        invariant
            n <= drawn@.len(),
            id@ == spelled(drawn@.take(n as int)),
        decreases drawn@.len() - n,
    {
        id.push(drawn[n] as char);
        assert(id@ =~= spelled(drawn@.take(n + 1)));
        n += 1;
    }
    assert(drawn@.take(drawn@.len() as int) =~= drawn@);
    id
}

/// Draws a new identifier for a player.
pub fn generate_random_id() -> (id: String)
    ensures
        is_random_id(id@),
{
    let mut drawn: Vec<u8> = Vec::new();
    while drawn.len() < USER_ID_LENGTH
        invariant
            drawn@.len() <= USER_ID_LENGTH,
            forall|i: int| 0 <= i < drawn@.len() ==> is_ascii_alphanumeric(#[trigger] drawn@[i]),
        decreases USER_ID_LENGTH - drawn@.len(),
    {
        drawn.push(random_alphanumeric());
    }
    identifier_from(&drawn)
}

impl UserProfile {
    /// The profile of a player who has not played yet, with the given
    /// identifier, the placeholder name numbered `suffix` and the standard
    /// colours.
    pub fn fresh(user_id: String, suffix: u32) -> (profile: Self)
        ensures
            profile.user_id == user_id,
            profile.username@ == placeholder_name(suffix as nat),
            profile.snake_color == DEFAULT_SNAKE_COLOR,
            profile.background_color == DEFAULT_BACKGROUND_COLOR,
            profile.apple_color == DEFAULT_APPLE_COLOR,
            profile.high_score == 0,
    {
        let mut username = "Player ".to_owned();
        push_decimal(&mut username, suffix);
        UserProfile {
            user_id,
            username,
            snake_color: DEFAULT_SNAKE_COLOR,
            background_color: DEFAULT_BACKGROUND_COLOR,
            apple_color: DEFAULT_APPLE_COLOR,
            high_score: 0,
        }
    }

    /// Takes note of the score of a finished round: the best score rises to
    /// `score` if `score` is strictly greater, and stays otherwise. Returns
    /// whether it rose.
    pub fn record_score(&mut self, score: u32) -> (improved: bool)
        ensures
            improved == (score > old(self).high_score),
            *final(self) == (UserProfile {
                high_score: if improved {
                    score
                } else {
                    old(self).high_score
                },
                ..*old(self)
            }),
    {
        if score > self.high_score {
            self.high_score = score;
            true
        } else {
            false
        }
    }
}

impl Default for UserProfile {
    /// The profile of a new player: a drawn identifier, a placeholder name
    /// with a drawn number, the standard colours and no score.
    fn default() -> (profile: Self)
        ensures
            is_random_id(profile.user_id@),
            is_placeholder_name(profile.username@),
            profile.snake_color == DEFAULT_SNAKE_COLOR,
            profile.background_color == DEFAULT_BACKGROUND_COLOR,
            profile.apple_color == DEFAULT_APPLE_COLOR,
            profile.high_score == 0,
    {
        let suffix = random_in_range(1000, 9999);
        UserProfile::fresh(generate_random_id(), suffix)
    }
}

/// One line of the leaderboard: a player and the score they reached.
#[derive(Debug, PartialEq, Eq)]
pub struct LeaderboardEntry {
    pub user_id: String,
    pub username: String,
    pub score: u32,
}

impl Clone for LeaderboardEntry {
    fn clone(&self) -> (copy: Self)
        ensures
            copy == *self,
    {
        LeaderboardEntry {
            user_id: self.user_id.clone(),
            username: self.username.clone(),
            score: self.score,
        }
    }
}

/// The best scores known, best first.
#[derive(Debug, PartialEq, Eq)]
pub struct Leaderboard {
    pub entries: Vec<LeaderboardEntry>,
}

impl View for Leaderboard {
    type V = Seq<LeaderboardEntry>;

    open spec fn view(&self) -> Seq<LeaderboardEntry> {
        self.entries@
    }
}

impl Default for Leaderboard {
    fn default() -> (board: Self)
        ensures
            board@ == Seq::<LeaderboardEntry>::empty(),
    {
        Leaderboard { entries: Vec::new() }
    }
}

impl Clone for Leaderboard {
    fn clone(&self) -> (copy: Self)
        ensures
            copy@ == self@,
    {
        let mut entries: Vec<LeaderboardEntry> = Vec::new();
        let mut i: usize = 0;
        while i < self.entries.len()
            invariant
                i <= self.entries@.len(),
                entries@ == self.entries@.take(i as int),
            decreases self.entries@.len() - i,
        {
            entries.push(self.entries[i].clone());
            assert(self.entries@.take(i + 1) =~= self.entries@.take(i as int).push(self.entries@[i as int]));
            i += 1;
        }
        assert(self.entries@.take(self.entries@.len() as int) =~= self.entries@);
        Leaderboard { entries }
    }
}

} // verus!

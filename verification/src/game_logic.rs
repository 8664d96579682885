use crate::constants::{GRID_SIZE, TICK_INTERVAL_MICROS};
use crate::random::random_in_range;
use crate::resources::{in_grid, Direction, Game, GameView, Position, UserProfile};
use vstd::prelude::*;
use vstd::relations::injective_on;
use vstd::set_lib::{lemma_int_range, lemma_len_subset, lemma_map_size, set_int_range};

verus! {

/// What the player asks for in one frame.
#[derive(Clone, Copy, PartialEq, Eq, Structural, Debug)]
pub enum Input {
    /// Nothing was pressed.
    Idle,
    /// Turn the snake towards a heading.
    Steer(Direction),
    /// Pause the round, or resume it.
    TogglePause,
}

/// How a call of [`step`] ended.
#[derive(Clone, Copy, PartialEq, Eq, Structural, Debug)]
pub enum StepResult {
    Continue,
    GameOver,
}

/// What one advance of the snake did.
#[derive(Clone, Copy, PartialEq, Eq, Structural, Debug)]
pub enum Advance {
    /// The head would have entered the body: the round is over and the snake
    /// is left as it was.
    Collided,
    /// The head reached the food: the snake grew by one cell.
    Ate,
    /// The head entered an empty cell and the tail followed.
    Moved,
}

/// A coordinate brought back onto a field whose edges meet: a step off the
/// low edge lands on the high edge and a step off the high edge lands on the
/// low one.
pub open spec fn spec_wrap_coordinate(c: i32) -> i32 {
    if c < 0 {
        (GRID_SIZE - 1) as i32
    } else if c >= GRID_SIZE {
        0
    } else {
        c
    }
}

/// Both coordinates of `cell` wrapped, each on its own.
pub open spec fn spec_wrap(cell: Position) -> Position {
    (spec_wrap_coordinate(cell.0), spec_wrap_coordinate(cell.1))
}

/// The cell one step from `cell` towards `heading`, before wrapping. Rows
/// count downwards, so `Up` lowers the row.
pub open spec fn spec_offset(cell: Position, heading: Direction) -> (int, int) {
    match heading {
        Direction::Up => (cell.0 as int, cell.1 - 1),
        Direction::Down => (cell.0 as int, cell.1 + 1),
        Direction::Left => (cell.0 - 1, cell.1 as int),
        Direction::Right => (cell.0 + 1, cell.1 as int),
    }
}

/// The cell one step from `cell` towards `heading` on the wrapped field.
pub open spec fn spec_neighbour(cell: Position, heading: Direction) -> Position {
    let moved = spec_offset(cell, heading);
    spec_wrap((moved.0 as i32, moved.1 as i32))
}

/// What is asked of the next advance once `request` has come in on top of
/// what was `pending`: the latest request counts.
pub open spec fn spec_asked(pending: Option<Direction>, request: Option<Direction>) -> Option<
    Direction,
> {
    match request {
        Some(wanted) => Some(wanted),
        None => pending,
    }
}

/// The heading that a round takes up when `pending` is what the player last
/// asked for: the heading of the last move decides whether the request is a
/// reversal.
pub open spec fn spec_resolve(current: Direction, pending: Option<Direction>) -> Direction {
    match pending {
        Some(wanted) => current.spec_turned(wanted),
        None => current,
    }
}

/// One advance of the snake by a cell, without the placing of new food.
///
/// The heading is resolved first, from the heading of the last move and the
/// heading that is pending, and nothing is pending afterwards. If the cell
/// ahead is covered by any part of the body the round ends and the body
/// stays. Otherwise the head enters that cell; on the food the score rises
/// and the body keeps its tail, off the food the tail is given up.
pub open spec fn spec_advance(game: GameView) -> (GameView, Advance) {
    let heading = spec_resolve(game.direction, game.pending);
    let head = spec_neighbour(game.snake[0], heading);
    if game.snake.contains(head) {
        (
            GameView { direction: heading, pending: None, game_over: true, ..game },
            Advance::Collided,
        )
    } else if head == game.food {
        (
            GameView {
                direction: heading,
                pending: None,
                snake: seq![head] + game.snake,
                score: (game.score + 1) as u32,
                ..game
            },
            Advance::Ate,
        )
    } else {
        (
            GameView {
                direction: heading,
                pending: None,
                snake: seq![head] + game.snake.drop_last(),
                ..game
            },
            Advance::Moved,
        )
    }
}

/// Every cell of the field, column by column.
pub open spec fn all_cells() -> Seq<Position> {
    Seq::new(
        (GRID_SIZE * GRID_SIZE) as nat,
        |i: int| ((i / GRID_SIZE as int) as i32, (i % GRID_SIZE as int) as i32),
    )
}

/// The cells of the field that `snake` does not cover, in the order of
/// [`all_cells`].
pub open spec fn spec_free_cells(snake: Seq<Position>) -> Seq<Position> {
    all_cells().filter(|cell: Position| !snake.contains(cell))
}

/// Whether `food` is a legal place for new food beside `snake`, given that
/// the food lay at `previous`: any free cell will do, and where the snake
/// covers the whole field the food stays where it was.
pub open spec fn food_placed(snake: Seq<Position>, previous: Position, food: Position) -> bool {
    if spec_free_cells(snake).len() > 0 {
        spec_free_cells(snake).contains(food)
    } else {
        food == previous
    }
}

/// Whether a round that has gathered `timer` microseconds advances when
/// `dt_micros` more have passed.
pub open spec fn tick_due(timer: u64, dt_micros: u64) -> bool {
    timer + dt_micros >= TICK_INTERVAL_MICROS
}

/// What [`step`] does to a round: `after` and `result` are a possible outcome
/// of letting `dt_micros` microseconds pass in `before` after the player
/// has asked for `request`.
///
/// A round that is over or paused stays as it is. Otherwise the request, if
/// there is one, takes the place of what was pending. A round whose timer
/// stays below the tick interval then only gathers the time, and what is
/// pending waits. Once the interval is reached the timer starts again from
/// zero and the snake advances as [`spec_advance`] says; the result is
/// `GameOver` exactly when it collided, and when it has eaten the food has
/// moved to a place that [`food_placed`] allows.
pub open spec fn stepped(
    before: GameView,
    dt_micros: u64,
    request: Option<Direction>,
    after: GameView,
    result: StepResult,
) -> bool {
    if before.game_over || before.paused {
        after == before && result == StepResult::Continue
    } else {
        let asked = GameView { pending: spec_asked(before.pending, request), ..before };
        if !tick_due(before.timer, dt_micros) {
            &&& after == (GameView { timer: (before.timer + dt_micros) as u64, ..asked })
            &&& result == StepResult::Continue
        } else {
            let (moved, outcome) = spec_advance(GameView { timer: 0, ..asked });
            match outcome {
                Advance::Collided => after == moved && result == StepResult::GameOver,
                Advance::Moved => after == moved && result == StepResult::Continue,
                Advance::Ate => {
                    &&& after == (GameView { food: after.food, ..moved })
                    &&& food_placed(moved.snake, moved.food, after.food)
                    &&& result == StepResult::Continue
                },
            }
        }
    }
}

/// Whether the snake eats when `dt_micros` microseconds pass in `game`
/// after the player has asked for `request`: the round is on, the interval
/// is reached, and the cell ahead holds the food and no part of the body.
/// Only then does the score rise, so only then must it have room to.
pub open spec fn eats(game: GameView, dt_micros: u64, request: Option<Direction>) -> bool {
    &&& !game.game_over
    &&& !game.paused
    &&& tick_due(game.timer, dt_micros)
    &&& spec_advance(GameView { timer: 0, pending: spec_asked(game.pending, request), ..game }).1
        == Advance::Ate
}

#[verifier::when_used_as_spec(spec_wrap)]
pub fn wrap(cell: Position) -> (wrapped: Position)
    ensures
        wrapped == spec_wrap(cell),
        in_grid(wrapped),
{
    let x: i32 = if cell.0 < 0 {
        GRID_SIZE - 1
    } else if cell.0 >= GRID_SIZE {
        0
    } else {
        cell.0
    };
    let y: i32 = if cell.1 < 0 {
        GRID_SIZE - 1
    } else if cell.1 >= GRID_SIZE {
        0
    } else {
        cell.1
    };
    (x, y)
}

/// The cell that a head at `cell` enters when it moves towards `heading`.
#[verifier::when_used_as_spec(spec_neighbour)]
pub fn neighbour(cell: Position, heading: Direction) -> (next: Position)
    requires
        in_grid(cell),
    ensures
        next == spec_neighbour(cell, heading),
        in_grid(next),
{
    let moved: Position = match heading {
        Direction::Up => (cell.0, cell.1 - 1),
        Direction::Down => (cell.0, cell.1 + 1),
        Direction::Left => (cell.0 - 1, cell.1),
        Direction::Right => (cell.0 + 1, cell.1),
    };
    wrap(moved)
}

/// Whether `snake` covers `cell`.
pub fn covers(snake: &Vec<Position>, cell: Position) -> (found: bool)
    ensures
        found == snake@.contains(cell),
{
    let mut i: usize = 0;
    while i < snake.len()
        invariant
            i <= snake@.len(),
            forall|k: int| 0 <= k < i ==> snake@[k] != cell,
        decreases snake@.len() - i,
    {
        let other = snake[i];
        if other.0 == cell.0 && other.1 == cell.1 {
            return true;
        }
        i += 1;
    }
    false
}

/// The cells that `snake` leaves free.
pub fn free_cells(snake: &Vec<Position>) -> (free: Vec<Position>)
    ensures
        free@ == spec_free_cells(snake@),
        forall|k: int| 0 <= k < free@.len() ==> in_grid(#[trigger] free@[k]) && !snake@.contains(free@[k]),
{
    let ghost keep = |cell: Position| !snake@.contains(cell);
    let mut free: Vec<Position> = Vec::new();
    let mut i: i32 = 0;
    assert(all_cells().take(0) =~= Seq::<Position>::empty());
    while i < GRID_SIZE * GRID_SIZE
        invariant
            0 <= i <= GRID_SIZE * GRID_SIZE,
            keep == |cell: Position| !snake@.contains(cell),
            free@ == all_cells().take(i as int).filter(keep),
            forall|k: int| 0 <= k < free@.len() ==> in_grid(#[trigger] free@[k]) && !snake@.contains(free@[k]),
        decreases GRID_SIZE * GRID_SIZE - i,
    {
        let cell: Position = (i / GRID_SIZE, i % GRID_SIZE);
        let covered = covers(snake, cell);
        proof {
            reveal(Seq::filter);
            let before = all_cells().take(i as int);
            let after = all_cells().take(i + 1);
            assert(all_cells()[i as int] == cell);
            assert(after.drop_last() =~= before);
            assert(after.last() == cell);
        }
        if !covered {
            free.push(cell);
        }
        i += 1;
    }
    assert(all_cells().take((GRID_SIZE * GRID_SIZE) as int) =~= all_cells());
    free
}

/// Advances the snake by one cell. New food is not placed here: after
/// `Advance::Ate` the food still lies under the head.
pub fn advance(game: &mut Game) -> (outcome: Advance)
    requires
        old(game).wf(),
        spec_advance(old(game)@).1 == Advance::Ate ==> old(game).score < u32::MAX,
    ensures
        (final(game)@, outcome) == spec_advance(old(game)@),
        final(game).wf(),
        old(game).coherent() ==> final(game).coherent(),
{
    let heading = match game.pending {
        Some(wanted) => game.direction.turned(wanted),
        None => game.direction,
    };
    game.direction = heading;
    game.pending = None;
    let head = neighbour(game.snake[0], heading);
    if covers(&game.snake, head) {
        game.game_over = true;
        return Advance::Collided;
    }
    let ghost body = game.snake@;
    game.snake.insert(0, head);
    assert(game.snake@ =~= seq![head] + body);
    if head.0 == game.food.0 && head.1 == game.food.1 {
        game.score += 1;
        Advance::Ate
    } else {
        game.snake.pop();
        assert(game.snake@ =~= seq![head] + body.drop_last());
        Advance::Moved
    }
}

/// Puts the food on the cell of `free` that `pick` points at.
pub fn place_food(game: &mut Game, free: &Vec<Position>, pick: u32)
    requires
        pick < free@.len(),
    ensures
        final(game)@ == (GameView { food: free@[pick as int], ..old(game)@ }),
        old(game).wf() && in_grid(free@[pick as int]) ==> final(game).wf(),
        old(game).coherent() && in_grid(free@[pick as int]) ==> final(game).coherent(),
{
    game.food = free[pick as usize];
}

/// Lets `dt_micros` microseconds pass in a round after the player has asked
/// for `request`; see [`stepped`]. When the snake has eaten, new food is
/// drawn at random among the free cells.
pub fn step(dt_micros: u64, game: &mut Game, request: Option<Direction>) -> (result: StepResult)
    requires
        old(game).wf(),
        eats(old(game)@, dt_micros, request) ==> old(game).score < u32::MAX,
    ensures
        stepped(old(game)@, dt_micros, request, final(game)@, result),
        final(game).wf(),
        old(game).coherent() ==> final(game).coherent(),
        spec_asked(old(game).pending, request) == Some(old(game).direction.spec_opposite())
            ==> final(game).direction == old(game).direction,
{
    if game.game_over || game.paused {
        return StepResult::Continue;
    }
    match request {
        Some(wanted) => {
            game.pending = Some(wanted);
        },
        None => {},
    }
    if game.timer < TICK_INTERVAL_MICROS && dt_micros < TICK_INTERVAL_MICROS - game.timer {
        game.timer += dt_micros;
        return StepResult::Continue;
    }
    game.timer = 0;
    match advance(game) {
        Advance::Collided => StepResult::GameOver,
        Advance::Moved => StepResult::Continue,
        Advance::Ate => {
            let free = free_cells(&game.snake);
            if free.len() > 0 {
                proof {
                    all_cells().lemma_filter_len(|cell: Position| !game.snake@.contains(cell));
                }
                let pick = random_in_range(0, free.len() as u32);
                place_food(game, &free, pick);
            }
            StepResult::Continue
        },
    }
}

/// What the keys held in one frame ask for. The keys count in a fixed
/// order, and the first that is pressed decides: up, down, left, right, and
/// last the key that pauses.
pub open spec fn spec_read_keys(up: bool, down: bool, left: bool, right: bool, pause: bool) -> Input {
    if up {
        Input::Steer(Direction::Up)
    } else if down {
        Input::Steer(Direction::Down)
    } else if left {
        Input::Steer(Direction::Left)
    } else if right {
        Input::Steer(Direction::Right)
    } else if pause {
        Input::TogglePause
    } else {
        Input::Idle
    }
}

#[verifier::when_used_as_spec(spec_read_keys)]
pub fn read_keys(up: bool, down: bool, left: bool, right: bool, pause: bool) -> (input: Input)
    ensures
        input == spec_read_keys(up, down, left, right, pause),
{
    if up {
        Input::Steer(Direction::Up)
    } else if down {
        Input::Steer(Direction::Down)
    } else if left {
        Input::Steer(Direction::Left)
    } else if right {
        Input::Steer(Direction::Right)
    } else if pause {
        Input::TogglePause
    } else {
        Input::Idle
    }
}

/// The round after the player has asked for `input`: a request to steer
/// becomes what is pending, in place of any earlier request, and a request
/// to pause flips the pause. The heading itself changes only when the snake
/// advances.
pub open spec fn spec_handle_input(game: GameView, input: Input) -> GameView {
    match input {
        Input::Idle => game,
        Input::Steer(wanted) => GameView { pending: Some(wanted), ..game },
        Input::TogglePause => GameView { paused: !game.paused, ..game },
    }
}

/// Applies what the player asked for to the round; see
/// [`spec_handle_input`].
pub fn handle_input(input: Input, game: &mut Game)
    ensures
        final(game)@ == spec_handle_input(old(game)@, input),
        final(game).direction == old(game).direction,
        old(game).wf() ==> final(game).wf(),
        old(game).coherent() ==> final(game).coherent(),
{
    match input {
        Input::Idle => {},
        Input::Steer(wanted) => {
            game.pending = Some(wanted);
        },
        Input::TogglePause => {
            game.paused = !game.paused;
        },
    }
}

/// Lets `dt_micros` microseconds pass in a round, with what is pending as
/// the heading asked for, and takes note of the score in `profile` when the
/// round ends.
///
/// Returns whether the round ended in this call. The best score of the
/// profile then rises to the score of the round if that is strictly greater;
/// in every other case the profile is left as it was.
pub fn update_game(dt_micros: u64, game: &mut Game, profile: &mut UserProfile) -> (finished: bool)
    requires
        old(game).wf(),
        eats(old(game)@, dt_micros, None) ==> old(game).score < u32::MAX,
    ensures
        stepped(
            old(game)@,
            dt_micros,
            None,
            final(game)@,
            if finished {
                StepResult::GameOver
            } else {
                StepResult::Continue
            },
        ),
        final(game).wf(),
        old(game).coherent() ==> final(game).coherent(),
        *final(profile) == (UserProfile {
            high_score: if finished && old(game).score > old(profile).high_score {
                old(game).score
            } else {
                old(profile).high_score
            },
            ..*old(profile)
        }),
{
    match step(dt_micros, game, None) {
        StepResult::GameOver => {
            profile.record_score(game.score);
            true
        },
        StepResult::Continue => false,
    }
}

/// A request to reverse on the spot never changes the heading.
pub proof fn lemma_reversal_is_ignored(current: Direction, wanted: Direction)
    requires
        wanted == current.spec_opposite(),
    ensures
        current.spec_turned(wanted) == current,
        spec_resolve(current, Some(wanted)) == current,
{
}

/// A step in which the heading asked for is the reverse of the heading of
/// the last move leaves the heading of the round as it was, whatever else
/// the step does.
pub proof fn lemma_step_keeps_heading_on_reversal(
    before: GameView,
    dt_micros: u64,
    request: Option<Direction>,
    after: GameView,
    result: StepResult,
)
    requires
        stepped(before, dt_micros, request, after, result),
        spec_asked(before.pending, request) == Some(before.direction.spec_opposite()),
    ensures
        after.direction == before.direction,
{
}

/// Requests to steer never change the heading of the last move, however
/// many come in before the snake advances; only the latest is kept.
pub proof fn lemma_requests_only_wait(game: GameView, first: Direction, second: Direction)
    ensures
        spec_handle_input(spec_handle_input(game, Input::Steer(first)), Input::Steer(second))
            == spec_handle_input(game, Input::Steer(second)),
        spec_handle_input(game, Input::Steer(first)).direction == game.direction,
        spec_handle_input(game, Input::Steer(first)).snake == game.snake,
{
}

/// The snake never turns back onto its neck. In a well-formed round of two
/// or more cells that is on and whose heading is that of the last move,
/// whatever is pending, the cell that the head enters next is not the neck;
/// so after a step, whatever was asked, the head does not lie where the
/// neck lay.
pub proof fn lemma_head_never_enters_neck(
    before: GameView,
    dt_micros: u64,
    request: Option<Direction>,
    after: GameView,
    result: StepResult,
)
    requires
        before.wf(),
        before.holds_course(),
        before.snake.len() >= 2,
        stepped(before, dt_micros, request, after, result),
    ensures
        !before.game_over ==> forall|asked: Option<Direction>|
            spec_neighbour(before.snake[0], #[trigger] spec_resolve(before.direction, asked))
                != before.snake[1],
        after.snake[0] != before.snake[1],
{
    let head = before.snake[0];
    let neck = before.snake[1];
    assert(in_grid(head) && in_grid(neck));
    assert(head != neck);
    if !before.game_over {
        assert forall|asked: Option<Direction>|
            spec_neighbour(head, #[trigger] spec_resolve(before.direction, asked)) != neck by {
            let heading = spec_resolve(before.direction, asked);
            assert(heading != before.direction.spec_opposite());
        }
    }
    if !before.game_over && !before.paused && tick_due(before.timer, dt_micros) {
        let asked = spec_asked(before.pending, request);
        assert(spec_neighbour(head, spec_resolve(before.direction, asked)) != neck);
    }
}

/// What a tick does to the head. In a well-formed round that is on, once
/// the interval is reached and the cell ahead is free of the body, the head
/// lies one cell further towards the resolved heading, on the field: the
/// coordinate that moved has wrapped from one edge to the other where it
/// left the field, and the other coordinate is the old one.
pub proof fn lemma_step_moves_head(
    before: GameView,
    dt_micros: u64,
    request: Option<Direction>,
    after: GameView,
    result: StepResult,
)
    requires
        before.wf(),
        !before.game_over,
        !before.paused,
        tick_due(before.timer, dt_micros),
        stepped(before, dt_micros, request, after, result),
        !before.snake.contains(
            spec_neighbour(
                before.snake[0],
                spec_resolve(before.direction, spec_asked(before.pending, request)),
            ),
        ),
    ensures
        result == StepResult::Continue,
        after.direction == spec_resolve(before.direction, spec_asked(before.pending, request)),
        after.snake[0] == spec_neighbour(before.snake[0], after.direction),
        in_grid(after.snake[0]),
        ({
            let head = before.snake[0];
            let x = head.0 as int;
            let y = head.1 as int;
            let last = GRID_SIZE - 1;
            let moved: (int, int) = match after.direction {
                Direction::Up => (x, if y == 0 { last } else { y - 1 }),
                Direction::Down => (x, if y == last { 0 } else { y + 1 }),
                Direction::Left => (if x == 0 { last } else { x - 1 }, y),
                Direction::Right => (if x == last { 0 } else { x + 1 }, y),
            };
            after.snake[0].0 == moved.0 && after.snake[0].1 == moved.1
        }),
{
    assert(in_grid(before.snake[0]));
}

/// A coordinate one step beyond either edge of the field is wrapped back
/// onto the field, and wrapping a cell leaves a coordinate that lies on the
/// field as it is.
pub proof fn lemma_wrap_reenters(cell: Position)
    ensures
        cell.0 == -1 || cell.0 == GRID_SIZE ==> 0 <= spec_wrap(cell).0 < GRID_SIZE,
        cell.1 == -1 || cell.1 == GRID_SIZE ==> 0 <= spec_wrap(cell).1 < GRID_SIZE,
        0 <= cell.0 < GRID_SIZE ==> spec_wrap(cell).0 == cell.0,
        0 <= cell.1 < GRID_SIZE ==> spec_wrap(cell).1 == cell.1,
        cell.0 == -1 ==> spec_wrap(cell).0 == GRID_SIZE - 1,
        cell.0 == GRID_SIZE ==> spec_wrap(cell).0 == 0,
        cell.1 == -1 ==> spec_wrap(cell).1 == GRID_SIZE - 1,
        cell.1 == GRID_SIZE ==> spec_wrap(cell).1 == 0,
{
}

/// A snake that lies on the field and covers no cell twice has at most as
/// many cells as the field.
pub proof fn lemma_snake_fits_field(snake: Seq<Position>)
    requires
        forall|i: int| 0 <= i < snake.len() ==> in_grid(#[trigger] snake[i]),
        snake.no_duplicates(),
    ensures
        snake.len() <= GRID_SIZE * GRID_SIZE,
{
    let cells = snake.to_set();
    let number = |cell: Position| cell.0 * GRID_SIZE + cell.1;
    let numbers = cells.map(number);
    let field = set_int_range(0, GRID_SIZE * GRID_SIZE);
    snake.unique_seq_to_set();
    vstd::seq_lib::seq_to_set_is_finite(snake);
    assert(injective_on(number, cells)) by {
        assert forall|a: Position, b: Position|
            cells.contains(a) && cells.contains(b) && #[trigger] number(a) == #[trigger] number(
                b,
            ) implies a == b by {
            assert(in_grid(a) && in_grid(b));
        }
    }
    lemma_map_size(cells, numbers, number);
    lemma_int_range(0, GRID_SIZE * GRID_SIZE);
    assert(numbers.subset_of(field)) by {
        assert forall|n: int| numbers.contains(n) implies field.contains(n) by {
            let cell = choose|cell: Position| cells.contains(cell) && number(cell) == n;
            assert(in_grid(cell));
        }
    }
    lemma_len_subset(numbers, field);
}

/// A snake that is shorter than the field has cells leaves a cell free, so
/// that new food always finds a place off the snake.
pub proof fn lemma_free_cell_exists(snake: Seq<Position>)
    requires
        forall|i: int| 0 <= i < snake.len() ==> in_grid(#[trigger] snake[i]),
        snake.len() < GRID_SIZE * GRID_SIZE,
    ensures
        spec_free_cells(snake).len() > 0,
        forall|previous: Position, food: Position|
            #[trigger] food_placed(snake, previous, food) ==> in_grid(food) && !snake.contains(
                food,
            ),
{
    let cells = all_cells();
    let free = |cell: Position| !snake.contains(cell);
    if cells.filter(free).len() == 0 {
        assert forall|i: int| 0 <= i < cells.len() implies snake.contains(#[trigger] cells[i]) by {
            if free(cells[i]) {
                cells.lemma_filter_contains(free, i);
            }
        }
        assert(cells.no_duplicates()) by {
            assert forall|i: int, j: int| 0 <= i < cells.len() && 0 <= j < cells.len() && i
                != j implies cells[i] != cells[j] by {
                assert(cells[i] == ((i / GRID_SIZE as int) as i32, (i % GRID_SIZE as int) as i32));
                assert(cells[j] == ((j / GRID_SIZE as int) as i32, (j % GRID_SIZE as int) as i32));
            }
        }
        cells.unique_seq_to_set();
        snake.lemma_cardinality_of_set();
        vstd::seq_lib::seq_to_set_is_finite(snake);
        vstd::seq_lib::seq_to_set_is_finite(cells);
        assert(cells.to_set().subset_of(snake.to_set())) by {
            assert forall|cell: Position| cells.to_set().contains(cell) implies snake.to_set().contains(
                cell,
            ) by {
                let i = choose|i: int| 0 <= i < cells.len() && cells[i] == cell;
                assert(snake.contains(cells[i]));
            }
        }
        lemma_len_subset(cells.to_set(), snake.to_set());
    }
    assert forall|previous: Position, food: Position| #[trigger]
        food_placed(snake, previous, food) implies in_grid(food) && !snake.contains(food) by {
        let found = cells.filter(free);
        let k = choose|k: int| 0 <= k < found.len() && found[k] == food;
        cells.lemma_filter_pred(free, k);
        cells.lemma_filter_contains_rev(free, food);
        let i = choose|i: int| 0 <= i < cells.len() && cells[i] == food;
        assert(cells[i] == ((i / GRID_SIZE as int) as i32, (i % GRID_SIZE as int) as i32));
    }
}

} // verus!

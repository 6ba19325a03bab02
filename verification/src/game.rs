use vstd::prelude::*;
use crate::grid::{lemma_step_keeps_board, lemma_with_cell, Grid};
use crate::layout::{
    board_cell, calc_cell_size, calc_window_offset, cell_coord, centered, draw_cursor,
    draw_matrix_state, fitting_cell_size, lemma_fitting_cell_size_is_largest, live_squares, pixels,
    pixels_of, spot_at, window_pos_to_point_xy, CellShape, Hover, Spot, Square,
};
use crate::life::make_next_sim_state;
use crate::matrix::GameMatrix;
use crate::seed::{init_random_game_state, CHANCE_SCALE};

verus! {

/// How often per second the simulation is asked to update. It is also the
/// highest speed: at that speed the threshold between two generations is one
/// update.
pub const TICKS_PER_SECOND: u16 = 60;

/// The mathematical model of a running simulation.
pub ghost struct GameState {
    /// The current generation.
    pub grid: Grid,
    /// Whether generations follow each other by themselves.
    pub playing: bool,
    /// The speed, from one to `TICKS_PER_SECOND`.
    pub speed: nat,
    /// Updates counted since the last generation.
    pub tick: nat,
    /// The chance, in `CHANCE_SCALE`, with which a cell of a new board lives.
    pub fill_factor: nat,
    /// Where the pointer is, if it is over the window.
    pub cursor: Option<(int, int)>,
    /// Where the board's first cell is drawn.
    pub world_offset: (int, int),
    /// The side of a drawn cell.
    pub cell_size: int,
}

/// The mathematical model of what the user did since the last frame.
pub ghost struct Request {
    /// The points of the window that were clicked, the first click first.
    pub clicks: Seq<(int, int)>,
    /// Whether play or pause was asked for.
    pub play_toggled: bool,
    /// By how much the speed is to change.
    pub speed_delta: int,
    /// Whether a new board was asked for.
    pub reset_requested: bool,
    /// Where the pointer is, if it is over the window.
    pub cursor: Option<(int, int)>,
}

/// The mathematical model of what to draw for one frame.
pub ghost struct Drawing {
    /// The squares of the live cells, in the order of the traversal.
    pub cells: Seq<Square>,
    /// What is under the pointer, if anything.
    pub cursor: Option<Spot>,
}

impl GameState {
    /// What holds of every simulation: the board is well formed, the speed is
    /// within its range, the counter never passes the longest threshold, and
    /// it is zero while the simulation is paused.
    pub open spec fn wf(self) -> bool {
        &&& self.grid.wf()
        &&& 1 <= self.speed <= TICKS_PER_SECOND
        &&& self.tick <= TICKS_PER_SECOND
        &&& !self.playing ==> self.tick == 0
    }

    /// How many updates pass without a generation at the current speed.
    pub open spec fn ticks_between_updates(self) -> nat {
        TICKS_PER_SECOND as nat / self.speed
    }

    /// The state after play or pause was asked for.
    pub open spec fn toggle_play(self) -> GameState {
        GameState { playing: !self.playing, tick: 0, ..self }
    }

    /// The speed that is `delta` away from the current one, held to its range.
    pub open spec fn set_speed(self, delta: int) -> GameState {
        let wanted = self.speed + delta;
        GameState {
            speed: if wanted < 1 {
                1
            } else if wanted > TICKS_PER_SECOND {
                TICKS_PER_SECOND as nat
            } else {
                wanted as nat
            },
            ..self
        }
    }

    /// The state after one update: nothing moves while paused; while playing
    /// the counter runs up to the threshold, and the update that finds it
    /// there brings the next generation and starts the count again.
    pub open spec fn update(self) -> GameState {
        if !self.playing {
            GameState { tick: 0, ..self }
        } else if self.tick >= self.ticks_between_updates() {
            GameState { tick: 0, grid: self.grid.step(), ..self }
        } else {
            GameState { tick: self.tick + 1, ..self }
        }
    }

    /// The state after `count` updates.
    pub open spec fn updates(self, count: nat) -> GameState
        decreases count,
    {
        if count == 0 {
            self
        } else {
            self.updates((count - 1) as nat).update()
        }
    }

    /// The state after the cell at `(x, y)` was asked to change: while paused
    /// a cell of the board flips; anything else is ignored.
    pub open spec fn toggle_cell(self, x: int, y: int) -> GameState {
        if !self.playing && self.grid.in_bounds(x, y) {
            GameState { grid: self.grid.with_cell(x, y, !self.grid.alive(x, y)), ..self }
        } else {
            self
        }
    }

    /// The state after a click on a point of the window: the cell drawn there
    /// is asked to change. Where nothing is drawn, cells without a size, a
    /// click changes nothing.
    pub open spec fn click(self, point: (int, int)) -> GameState {
        if self.cell_size > 0 {
            self.toggle_cell(
                cell_coord(point.0, self.world_offset.0, self.cell_size),
                cell_coord(point.1, self.world_offset.1, self.cell_size),
            )
        } else {
            self
        }
    }

    /// The state after a run of clicks, the first one first.
    pub open spec fn clicks(self, points: Seq<(int, int)>) -> GameState
        decreases points.len(),
    {
        if points.len() == 0 {
            self
        } else {
            self.clicks(points.drop_last()).click(points.last())
        }
    }

    /// The state after the input of one frame, but for a reset: first the
    /// clicks, then play or pause, then the speed, then the pointer.
    pub open spec fn steer(self, request: Request) -> GameState {
        let clicked = self.clicks(request.clicks);
        let toggled = if request.play_toggled {
            clicked.toggle_play()
        } else {
            clicked
        };
        GameState { cursor: request.cursor, ..toggled.set_speed(request.speed_delta) }
    }

    /// The state after a reset that brought the given board: the count
    /// starts again, and play or pause stays.
    pub open spec fn reseeded(self, grid: Grid) -> GameState {
        GameState { grid, tick: 0, ..self }
    }

    /// The state after the board was placed in a frame: the cells as large
    /// as the frame allows, the board in its middle.
    pub open spec fn placed(self, frame_width: int, frame_height: int) -> GameState {
        let cell_size = fitting_cell_size(
            self.grid.width as int,
            self.grid.height as int,
            frame_width,
            frame_height,
        );
        GameState {
            cell_size,
            world_offset: (
                centered(self.grid.width as int, cell_size, frame_width),
                centered(self.grid.height as int, cell_size, frame_height),
            ),
            ..self
        }
    }

    /// What to draw: the squares of the live cells and what is under the
    /// pointer. Where the cells have no size, nothing is drawn.
    pub open spec fn scene(self) -> Drawing {
        if self.cell_size > 0 {
            Drawing {
                cells: live_squares(self.grid, self.cell_size, self.world_offset),
                cursor: match self.cursor {
                    Some(point) => Some(
                        spot_at(self.grid, self.cell_size, self.world_offset, point),
                    ),
                    None => None,
                },
            }
        } else {
            Drawing { cells: Seq::empty(), cursor: None }
        }
    }
}

/// Whether a board can have come from seeding with the given dimensions and
/// chance: it has the dimensions, with a chance of zero it is dead, and with
/// certainty every cell lives.
pub open spec fn seeded(grid: Grid, width: nat, height: nat, fill_factor: nat) -> bool {
    &&& grid.wf()
    &&& grid.width == width
    &&& grid.height == height
    &&& fill_factor == 0 ==> grid == Grid::dead(width, height)
    &&& fill_factor >= CHANCE_SCALE ==> grid == Grid::full(width, height)
}

/// What the user did since the last frame.
pub struct Input {
    /// The points of the window that were clicked, the first click first.
    pub clicks: Vec<(i32, i32)>,
    /// Whether play or pause was asked for.
    pub play_toggled: bool,
    /// By how much the speed is to change.
    pub speed_delta: i32,
    /// Whether a new board was asked for.
    pub reset_requested: bool,
    /// Where the pointer is, if it is over the window.
    pub cursor: Option<(i32, i32)>,
}

impl View for Input {
    type V = Request;

    open spec fn view(&self) -> Request {
        Request {
            clicks: self.clicks@.map_values(|point: (i32, i32)| pixels(point)),
            play_toggled: self.play_toggled,
            speed_delta: self.speed_delta as int,
            reset_requested: self.reset_requested,
            cursor: pixels_of(self.cursor),
        }
    }
}

/// What to draw for one frame.
pub struct Scene {
    /// The squares of the live cells.
    pub cells: Vec<CellShape>,
    /// What is under the pointer, if anything.
    pub cursor: Option<Hover>,
}

impl View for Scene {
    type V = Drawing;

    open spec fn view(&self) -> Drawing {
        Drawing {
            cells: self.cells.deep_view(),
            cursor: match self.cursor {
                Some(hover) => Some(hover@),
                None => None,
            },
        }
    }
}

/// A simulation: the board, whether it plays, how fast, and where it was
/// last drawn.
pub struct MyGame {
    game_matrix: GameMatrix,
    sim_playing: bool,
    sim_speed: u16,
    tick: u16,
    fill_factor: u32,
    cursor: Option<(i32, i32)>,
    world_offset: (i32, i32),
    cell_size: u32,
}

impl View for MyGame {
    type V = GameState;

    closed spec fn view(&self) -> GameState {
        GameState {
            grid: self.game_matrix@,
            playing: self.sim_playing,
            speed: self.sim_speed as nat,
            tick: self.tick as nat,
            fill_factor: self.fill_factor as nat,
            cursor: pixels_of(self.cursor),
            world_offset: pixels(self.world_offset),
            cell_size: self.cell_size as int,
        }
    }
}

impl MyGame {
    /// Every simulation that exists at run time is well formed.
    #[verifier::type_invariant]
    pub closed spec fn well_formed(self) -> bool {
        self@.wf()
    }

    /// What the type guarantees, for a caller that holds a simulation.
    pub proof fn lemma_view_wf(self)
        requires
            self.well_formed(),
        ensures
            self@.wf(),
    {
    }

    /// A paused simulation at speed one on a freshly seeded board of the
    /// given dimensions. The same chance seeds every later reset that the
    /// input asks for. The number of cells has to be one that a `usize`
    /// holds.
    pub fn load(width: usize, height: usize, fill_factor: u32) -> (game: MyGame)
        requires
            width * height <= usize::MAX,
        ensures
            game@.wf(),
            seeded(game@.grid, width as nat, height as nat, fill_factor as nat),
            !game@.playing,
            game@.speed == 1,
            game@.tick == 0,
            game@.fill_factor == fill_factor,
            game@.cursor is None,
            game@.world_offset == (0int, 0int),
            game@.cell_size == 10,
    {
        let game_matrix = init_random_game_state(width, height, fill_factor);
        MyGame {
            game_matrix,
            sim_playing: false,
            sim_speed: 1,
            tick: 0,
            fill_factor,
            cursor: None,
            world_offset: (0, 0),
            cell_size: 10,
        }
    }

    /// One update of the simulation.
    pub fn update(&mut self)
        ensures
            final(self)@ == old(self)@.update(),
    {
        proof {
            use_type_invariant(&*self);
        }
        if !self.sim_playing {
            self.tick = 0;
            return ;
        }
        // Skip the generation if it is too early.

        let ticks_between_updates = TICKS_PER_SECOND / self.sim_speed;
        if self.tick >= ticks_between_updates {
            self.tick = 0;
        } else {
            self.tick = self.tick + 1;
            return ;
        }
        let next = make_next_sim_state(&self.game_matrix);
        proof {
            next.lemma_view_wf();
        }
        self.game_matrix = next;
    }

    /// Starts a paused simulation, pauses a playing one.
    pub fn toggle_play(&mut self)
        ensures
            final(self)@ == old(self)@.toggle_play(),
    {
        proof {
            use_type_invariant(&*self);
        }
        self.tick = 0;
        self.sim_playing = !self.sim_playing;
    }

    /// Changes the speed by `delta` and holds it to its range.
    pub fn set_speed(&mut self, delta: i32)
        ensures
            final(self)@ == old(self)@.set_speed(delta as int),
    {
        proof {
            use_type_invariant(&*self);
        }
        let new_sim_speed: i64 = self.sim_speed as i64 + delta as i64;
        self.sim_speed = if new_sim_speed < 1 {
            1u16
        } else if new_sim_speed > TICKS_PER_SECOND as i64 {
            TICKS_PER_SECOND
        } else {
            new_sim_speed as u16
        };
    }

    /// Flips the cell at `(x, y)` of a paused simulation. A coordinate
    /// outside the board is ignored, and so is every request while playing.
    pub fn toggle_cell(&mut self, x: i64, y: i64)
        ensures
            final(self)@ == old(self)@.toggle_cell(x as int, y as int),
    {
        proof {
            use_type_invariant(&*self);
            self.game_matrix.lemma_view_wf();
        }
        if self.sim_playing {
            return ;
        }
        if let Some((column, row)) = board_cell((x, y)) {
            let alive = self.game_matrix.is_cell_alive(column, row);
            let _ = self.game_matrix.try_set_alive(column, row, !alive);
        }
    }

    /// Replaces the board by a freshly seeded one of the same dimensions and
    /// starts the count again. Play or pause stays as it is.
    pub fn reset(&mut self, fill_factor: u32)
        ensures
            final(self)@ == old(self)@.reseeded(final(self)@.grid),
            seeded(
                final(self)@.grid,
                old(self)@.grid.width,
                old(self)@.grid.height,
                fill_factor as nat,
            ),
    {
        proof {
            use_type_invariant(&*self);
            use_type_invariant(&self.game_matrix);
            self.game_matrix.lemma_dimensions_fit();
        }
        let fresh = init_random_game_state(
            self.game_matrix.width(),
            self.game_matrix.height(),
            fill_factor,
        );
        self.tick = 0;
        self.game_matrix = fresh;
    }

    /// Takes in what the user did since the last frame: clicks change cells
    /// of a paused simulation, then play or pause is switched, the speed
    /// changed, a new board seeded, each if asked for, and the pointer noted.
    pub fn interact(&mut self, input: &Input)
        ensures
            !input.reset_requested ==> final(self)@ == old(self)@.steer(input@),
            input.reset_requested ==> final(self)@ == old(self)@.steer(input@).reseeded(
                final(self)@.grid,
            ) && seeded(
                final(self)@.grid,
                old(self)@.grid.width,
                old(self)@.grid.height,
                old(self)@.fill_factor,
            ),
    {
        // handle manual cell placement
        let ghost points = input@.clicks;
        let mut handled: usize = 0;
        assert(points.take(0) =~= Seq::<(int, int)>::empty());
        while handled < input.clicks.len()
            invariant
                handled <= input.clicks@.len(),
                points == input@.clicks,
                self@ == old(self)@.clicks(points.take(handled as int)),
                self@.grid.width == old(self)@.grid.width,
                self@.grid.height == old(self)@.grid.height,
                self@.fill_factor == old(self)@.fill_factor,
            decreases input.clicks@.len() - handled,
        {
            proof {
                let done = points.take(handled as int);
                let more = points.take(handled + 1);
                assert(more.drop_last() =~= done);
                assert(more.last() == pixels(input.clicks@[handled as int]));
            }
            let click = input.clicks[handled];
            if self.cell_size > 0 {
                let (x, y) = window_pos_to_point_xy(self.cell_size, self.world_offset, click);
                self.toggle_cell(x, y);
            }
            handled = handled + 1;
        }
        assert(points.take(handled as int) =~= points);

        // handle play/pause
        if input.play_toggled {
            self.toggle_play();
        }
        // handle sim speed changes

        self.set_speed(input.speed_delta);

        // handle restart
        if input.reset_requested {
            let fill_factor = self.fill_factor;
            self.reset(fill_factor);
        }
        // handle cursor position

        proof {
            use_type_invariant(&*self);
        }
        self.cursor = input.cursor;
    }

    /// Places the board in a frame of the given size and says what to draw
    /// there: the live cells and what is under the pointer.
    pub fn draw(&mut self, frame_width: u32, frame_height: u32) -> (scene: Scene)
        ensures
            final(self)@ == old(self)@.placed(frame_width as int, frame_height as int),
            scene@ == final(self)@.scene(),
    {
        proof {
            use_type_invariant(&*self);
            self.game_matrix.lemma_view_wf();
            lemma_fitting_cell_size_is_largest(
                self@.grid.width as int,
                self@.grid.height as int,
                frame_width as int,
                frame_height as int,
            );
        }
        let cell_size = calc_cell_size(&self.game_matrix, frame_width, frame_height);
        let world_offset = calc_window_offset(
            &self.game_matrix,
            cell_size,
            frame_width,
            frame_height,
        );
        self.cell_size = cell_size;
        self.world_offset = world_offset;

        if cell_size == 0 {
            let cells: Vec<CellShape> = Vec::new();
            assert(cells.deep_view() =~= Seq::<Square>::empty());
            return Scene { cells, cursor: None };
        }
        let cells = draw_matrix_state(&self.game_matrix, cell_size, world_offset);
        let cursor = match self.cursor {
            Some(point) => Some(draw_cursor(&self.game_matrix, cell_size, world_offset, point)),
            None => None,
        };
        Scene { cells, cursor }
    }

    /// The board.
    pub fn game_matrix(&self) -> (game_matrix: &GameMatrix)
        ensures
            game_matrix@ == self@.grid,
    {
        &self.game_matrix
    }

    /// Whether the simulation plays.
    pub fn is_playing(&self) -> (playing: bool)
        ensures
            playing == self@.playing,
    {
        self.sim_playing
    }

    /// The speed, from one to `TICKS_PER_SECOND`.
    pub fn speed(&self) -> (speed: u16)
        ensures
            speed == self@.speed,
            1 <= speed <= TICKS_PER_SECOND,
    {
        proof {
            use_type_invariant(self);
        }
        self.sim_speed
    }

    /// The updates counted since the last generation.
    pub fn tick(&self) -> (tick: u16)
        ensures
            tick == self@.tick,
            tick <= TICKS_PER_SECOND,
            !self@.playing ==> tick == 0,
    {
        proof {
            use_type_invariant(self);
        }
        self.tick
    }

    /// Where the pointer was when the input was last taken in.
    pub fn cursor(&self) -> (cursor: Option<(i32, i32)>)
        ensures
            pixels_of(cursor) == self@.cursor,
    {
        self.cursor
    }

    /// Where the board's first cell was last drawn.
    pub fn world_offset(&self) -> (world_offset: (i32, i32))
        ensures
            pixels(world_offset) == self@.world_offset,
    {
        self.world_offset
    }

    /// The side of a cell as it was last drawn.
    pub fn cell_size(&self) -> (cell_size: u32)
        ensures
            cell_size == self@.cell_size,
    {
        self.cell_size
    }
}

/// Whatever is done to a simulation, it stays well formed: the speed within
/// its range, the counter within the longest threshold and at zero while
/// paused, the board without a live cell outside it.
pub proof fn lemma_transitions_keep_wf(
    state: GameState,
    delta: int,
    x: int,
    y: int,
    point: (int, int),
    grid: Grid,
    frame_width: int,
    frame_height: int,
)
    requires
        state.wf(),
        grid.wf(),
    ensures
        state.update().wf(),
        state.toggle_play().wf(),
        state.set_speed(delta).wf(),
        state.toggle_cell(x, y).wf(),
        state.click(point).wf(),
        state.reseeded(grid).wf(),
        state.placed(frame_width, frame_height).wf(),
{
    lemma_step_keeps_board(state.grid);
    if state.grid.in_bounds(x, y) {
        lemma_with_cell(state.grid, x, y, !state.grid.alive(x, y));
    }
    let column = cell_coord(point.0, state.world_offset.0, state.cell_size);
    let row = cell_coord(point.1, state.world_offset.1, state.cell_size);
    if state.grid.in_bounds(column, row) {
        lemma_with_cell(state.grid, column, row, !state.grid.alive(column, row));
    }
}

/// While a simulation is paused, no number of updates changes anything: the
/// board stays, and the counter stays at zero.
pub proof fn lemma_paused_updates(state: GameState, count: nat)
    requires
        state.wf(),
        !state.playing,
    ensures
        state.updates(count) == state,
    decreases count,
{
    if count > 0 {
        lemma_paused_updates(state, (count - 1) as nat);
    }
}

/// While a simulation plays at one speed, the updates that find the counter
/// below the threshold only count, and the first that finds it there brings
/// the next generation and sets the counter to zero. From a counter of zero
/// that is one generation in every `ticks_between_updates() + 1` updates.
pub proof fn lemma_playing_updates(state: GameState, count: nat)
    requires
        state.wf(),
        state.playing,
        state.tick + count <= state.ticks_between_updates(),
    ensures
        state.updates(count) == (GameState { tick: state.tick + count, ..state }),
        state.updates(count + 1) == (GameState {
            tick: if state.tick + count == state.ticks_between_updates() {
                0
            } else {
                state.tick + count + 1
            },
            grid: if state.tick + count == state.ticks_between_updates() {
                state.grid.step()
            } else {
                state.grid
            },
            ..state
        }),
    decreases count,
{
    if count > 0 {
        lemma_playing_updates(state, (count - 1) as nat);
    }
    assert(state.updates(count + 1) == state.updates(count).update());
}

} // verus!

use vstd::prelude::*;
use crate::geometry::{
    degrees_to_angle,
    div_toward_zero,
    forward_point,
    generate_ray_angles,
    move_forward,
    normalize_angle,
    ray_angle,
    lemma_offset_bounds,
    TrigTable,
    HALF_TURN,
    MAX_RAYS,
    QUARTER_TURN,
    TURN,
    UNIT,
};
use crate::grid::{GridMap, MAX_DIM};
use crate::keys::{ordered_keys, KeySet, MyKeys};
use crate::render::{column_color, draw_walls, pixel_is, pixel_offset, projected_height, MAX_SCREEN_HEIGHT};
use rgb::RGBA8;

verus! {

/// The linear step by which a ray advances while it looks for a wall
/// (a hundredth of a grid unit).
pub const MARCH_STEP: i64 = 100;

/// The distance the player covers in one move (a fifth of a grid unit).
pub const MOVE_STEP: i64 = 2_000;

/// The angle one pan turns the player by (an eighth of pi).
pub const PAN_STEP: i64 = 4_096;

/// The field of view of a new world, in degrees.
pub const DEFAULT_FOV_DEGREES: u32 = 70;

/// A movement relative to where the player faces.
#[derive(PartialEq, Eq, Structural, Clone, Copy, Debug)]
pub enum Heading {
    Forward,
    Backward,
    Right,
    Left,
}

/// A way to turn the player.
#[derive(PartialEq, Eq, Structural, Clone, Copy, Debug)]
pub enum PanDirection {
    Left,
    Right,
}

/// What a held key does to the world.
#[derive(PartialEq, Eq, Structural, Clone, Copy, Debug)]
pub enum Command {
    Move(Heading),
    Pan(PanDirection),
}

/// The command of each key: the arrows up and down and `z`, `s` move
/// forward and back, `q` and `d` step left and right, the arrows left and
/// right and `a`, `e` turn.
pub open spec fn command_for(k: MyKeys) -> Command {
    match k {
        MyKeys::Up | MyKeys::KeyZ => Command::Move(Heading::Forward),
        MyKeys::Down | MyKeys::KeyS => Command::Move(Heading::Backward),
        MyKeys::KeyQ => Command::Move(Heading::Left),
        MyKeys::KeyD => Command::Move(Heading::Right),
        MyKeys::Left | MyKeys::KeyA => Command::Pan(PanDirection::Left),
        MyKeys::Right | MyKeys::KeyE => Command::Pan(PanDirection::Right),
    }
}

/// The command of key `k`.
pub fn key_command(k: MyKeys) -> (r: Command)
    ensures
        r == command_for(k),
{
    match k {
        MyKeys::Up | MyKeys::KeyZ => Command::Move(Heading::Forward),
        MyKeys::Down | MyKeys::KeyS => Command::Move(Heading::Backward),
        MyKeys::KeyQ => Command::Move(Heading::Left),
        MyKeys::KeyD => Command::Move(Heading::Right),
        MyKeys::Left | MyKeys::KeyA => Command::Pan(PanDirection::Left),
        MyKeys::Right | MyKeys::KeyE => Command::Pan(PanDirection::Right),
    }
}

/// The angle a movement adds to the player's heading.
pub open spec fn heading_offset(h: Heading) -> int {
    match h {
        Heading::Forward => 0,
        Heading::Backward => HALF_TURN as int,
        Heading::Left => -QUARTER_TURN,
        Heading::Right => QUARTER_TURN as int,
    }
}

/// The grid cell index of a coordinate, truncated toward zero.
pub open spec fn cell_of(v: int) -> int {
    div_toward_zero(v, UNIT as int)
}

/// Whether the point `p` lies in a wall cell of `map`, or outside it.
pub open spec fn point_is_wall(map: GridMap, p: (int, int)) -> bool {
    map.wall_at(cell_of(p.0), cell_of(p.1))
}

/// The player on a grid map: a position that is never inside a wall, a
/// heading within one turn, and a field of view.
pub struct World {
    map: GridMap,
    trig: TrigTable,
    player_pos: (i64, i64),
    player_heading: i64,
    player_fov: i64,
}

proof fn lemma_open_point_bounds(map: GridMap, p: (i64, i64))
    requires
        map.wf(),
        map.width() <= MAX_DIM,
        map.height() <= MAX_DIM,
        !point_is_wall(map, (p.0 as int, p.1 as int)),
    ensures
        -UNIT < p.0 < (MAX_DIM as int) * (UNIT as int),
        -UNIT < p.1 < (MAX_DIM as int) * (UNIT as int),
{
    lemma_cell_bounds(p.0 as int);
    lemma_cell_bounds(p.1 as int);
}

proof fn lemma_cell_bounds(v: int)
    ensures
        0 <= cell_of(v) < MAX_DIM ==> -UNIT < v < (MAX_DIM as int) * (UNIT as int),
{
    if 0 <= cell_of(v) < MAX_DIM {
        if v >= 0 {
            assert(v < (MAX_DIM as int) * (UNIT as int)) by (nonlinear_arith)
                requires
                    v / (UNIT as int) < MAX_DIM,
                    v >= 0,
            ;
        } else {
            assert(-v < UNIT) by (nonlinear_arith)
                requires
                    (-v) / (UNIT as int) <= 0,
                    -v > 0,
            ;
        }
    }
}

impl World {
    pub closed spec fn map(&self) -> GridMap {
        self.map
    }

    pub closed spec fn trig(&self) -> TrigTable {
        self.trig
    }

    pub closed spec fn position(&self) -> (int, int) {
        (self.player_pos.0 as int, self.player_pos.1 as int)
    }

    pub closed spec fn heading(&self) -> int {
        self.player_heading as int
    }

    pub closed spec fn fov(&self) -> int {
        self.player_fov as int
    }

    pub open spec fn wf(&self) -> bool {
        &&& self.map().wf()
        &&& self.map().width() <= MAX_DIM
        &&& self.map().height() <= MAX_DIM
        &&& self.trig().wf()
        &&& !point_is_wall(self.map(), self.position())
        &&& 0 <= self.heading() < TURN
        &&& 0 <= self.fov() <= TURN
    }

    /// How far a ray may march before it gives up: past the map's width and
    /// height together, which is farther than any point of the map.
    pub open spec fn guard_distance(&self) -> int {
        (self.map().width() + self.map().height() + 1) * UNIT
    }

    /// Whether the ray in direction `direction` meets a wall at `distance`.
    pub open spec fn hits_at(&self, direction: int, distance: int) -> bool {
        point_is_wall(
            self.map(),
            forward_point(self.trig(), self.position(), direction, distance),
        )
    }

    /// The distance at which a ray that starts at `distance` and advances by
    /// `MARCH_STEP` first meets a wall, or the guard distance if it meets
    /// none before.
    pub open spec fn march_from(&self, direction: int, distance: int) -> int
        decreases self.guard_distance() + MARCH_STEP - distance,
    {
        if distance >= self.guard_distance() || self.hits_at(direction, distance) {
            distance
        } else {
            self.march_from(direction, distance + MARCH_STEP)
        }
    }

    /// The distance to the first wall along `direction`, from the player.
    pub open spec fn march_distance(&self, direction: int) -> int {
        self.march_from(direction, 0)
    }

    /// A world over `map` with the player at `position`, facing `heading`
    /// (brought into one turn), with field of view `fov`; `None` when the
    /// position lies in a wall or `fov` is not within one turn.
    pub fn from_parts(map: GridMap, position: (i64, i64), heading: i64, fov: i64, trig: TrigTable) -> (r: Option<World>)
        requires
            map.wf(),
            map.width() <= MAX_DIM,
            map.height() <= MAX_DIM,
            trig.wf(),
        ensures
            r.is_some() <==> (!point_is_wall(map, (position.0 as int, position.1 as int)) && 0 <= fov <= TURN),
            r.is_some() ==> ({
                let w = r.unwrap();
                &&& w.wf()
                &&& w.map() == map
                &&& w.trig() == trig
                &&& w.position() == (position.0 as int, position.1 as int)
                &&& w.heading() == (heading as int) % (TURN as int)
                &&& w.fov() == fov
            }),
    {
        let world = World {
            map,
            trig,
            player_pos: position,
            player_heading: normalize_angle(heading),
            player_fov: fov,
        };
        if fov < 0 || fov > TURN || world.is_wall(position) {
            None
        } else {
            Some(world)
        }
    }

    /// The starting world: a five by five room closed by walls, the player in
    /// its middle cell facing along x, with a seventy degree field of view.
    pub fn new(trig: TrigTable) -> (r: World)
        requires
            trig.wf(),
        ensures
            r.wf(),
            r.map().width() == 5,
            r.map().height() == 5,
            forall|x: int, y: int|
                #[trigger] r.map().wall_at(x, y) == (!r.map().in_bounds(x, y) || GridMap::on_border(x, y, 5, 5)),
            r.trig() == trig,
            r.position() == (2 * UNIT, 2 * UNIT),
            r.heading() == 0,
            r.fov() == (DEFAULT_FOV_DEGREES as int) * (TURN as int) / 360,
            is_starting_room(r),
    {
        let map = GridMap::bordered(5, 5);
        let fov = degrees_to_angle(DEFAULT_FOV_DEGREES);
        proof {
            assert(cell_of(2 * UNIT) == 2);
            assert(fov == 12_743);
        }
        World { map, trig, player_pos: (2 * UNIT, 2 * UNIT), player_heading: 0, player_fov: fov }
    }

    /// The player's position, in fixed-point units.
    pub fn position_xy(&self) -> (r: (i64, i64))
        ensures
            (r.0 as int, r.1 as int) == self.position(),
    {
        self.player_pos
    }

    /// The player's heading, in angle units within one turn.
    pub fn heading_angle(&self) -> (r: i64)
        ensures
            r == self.heading(),
    {
        self.player_heading
    }

    /// The field of view, in angle units.
    pub fn fov_angle(&self) -> (r: i64)
        ensures
            r == self.fov(),
    {
        self.player_fov
    }

    /// Whether the point `coords` lies in a wall cell or outside the map.
    pub fn is_wall(&self, coords: (i64, i64)) -> (r: bool)
        requires
            self.map().wf(),
        ensures
            r == point_is_wall(self.map(), (coords.0 as int, coords.1 as int)),
    {
        let cx: i64 = if coords.0 <= -UNIT { -1 } else { scale_cell(coords.0) };
        let cy: i64 = if coords.1 <= -UNIT { -1 } else { scale_cell(coords.1) };
        proof {
            lemma_negative_cell(coords.0 as int);
            lemma_negative_cell(coords.1 as int);
        }
        self.map.is_wall_cell(cx, cy)
    }

    /// The distance from the player to the first wall along `heading`,
    /// marched in steps of `MARCH_STEP` and given up at the guard distance.
    pub fn distance_to_wall(&self, heading: i64) -> (r: i64)
        requires
            self.wf(),
        ensures
            r == self.march_distance(heading as int),
            0 <= r <= self.guard_distance(),
    {
        proof {
            lemma_open_point_bounds(self.map, self.player_pos);
        }
        let direction = normalize_angle(heading);
        let guard: i64 = ((self.map.columns() + self.map.rows() + 1) as i64) * UNIT;
        let mut distance: i64 = 0;
        let mut coords = move_forward(self.player_pos, direction, distance, &self.trig);
        while distance < guard && !self.is_wall(coords)
            invariant
                self.wf(),
                guard == self.guard_distance(),
                0 <= direction < TURN,
                0 <= distance <= guard,
                distance % MARCH_STEP == 0,
                guard % MARCH_STEP == 0,
                (coords.0 as int, coords.1 as int) == forward_point(self.trig, self.position(), direction as int, distance as int),
                self.march_from(direction as int, distance as int) == self.march_distance(direction as int),
                -UNIT < self.player_pos.0 < (MAX_DIM as int) * (UNIT as int),
                -UNIT < self.player_pos.1 < (MAX_DIM as int) * (UNIT as int),
            decreases guard - distance,
        {
            distance = distance + MARCH_STEP;
            coords = move_forward(self.player_pos, direction, distance, &self.trig);
        }
        proof {
            vstd::arithmetic::div_mod::lemma_mod_twice(heading as int, TURN as int);
            lemma_march_periodic(*self, direction as int, heading as int, 0);
        }
        distance
    }

    /// The distances to the walls along `ray_quantity` rays spread over the
    /// field of view around the heading, left to right.
    pub fn distance_to_walls(&self, ray_quantity: usize) -> (r: Vec<i64>)
        requires
            self.wf(),
            ray_quantity <= MAX_RAYS,
        ensures
            r.len() == ray_quantity,
            forall|i: int|
                0 <= i < ray_quantity ==> #[trigger] r@[i] as int == self.march_distance(
                    self.heading() + ray_angle(i, ray_quantity as int, self.fov()),
                ),
    {
        let angles = generate_ray_angles(ray_quantity, self.player_fov);
        let mut r: Vec<i64> = Vec::new();
        let mut i: usize = 0;
        while i < angles.len()
            invariant
                self.wf(),
                angles.len() == ray_quantity,
                forall|j: int| 0 <= j < ray_quantity ==> angles@[j] as int == ray_angle(j, ray_quantity as int, self.fov()),
                forall|j: int| 0 <= j < ray_quantity ==> -TURN <= #[trigger] angles@[j] <= TURN,
                0 <= i <= angles.len(),
                r.len() == i,
                forall|j: int|
                    0 <= j < i ==> #[trigger] r@[j] as int == self.march_distance(
                        self.heading() + ray_angle(j, ray_quantity as int, self.fov()),
                    ),
            decreases angles.len() - i,
        {
            let d = self.distance_to_wall(self.player_heading + angles[i]);
            r.push(d);
            i = i + 1;
        }
        r
    }

    /// Draws the player's view on a row-major RGBA8 frame `width` by `height`
    /// pixels: one ray per column across the field of view, each projected
    /// as a centred wall column.
    pub fn draw(&self, frame: &mut [u8], width: usize, height: usize, wall: RGBA8, void: RGBA8)
        requires
            self.wf(),
            width <= MAX_RAYS,
            height <= MAX_SCREEN_HEIGHT,
            width * height * 4 <= old(frame)@.len(),
        ensures
            final(frame)@.len() == old(frame)@.len(),
            forall|x: int, y: int|
                0 <= x < width && 0 <= y < height ==> pixel_is(
                    final(frame)@,
                    #[trigger] pixel_offset(width as int, x, y),
                    column_color(
                        y,
                        height as int,
                        projected_height(
                            height as int,
                            self.march_distance(self.heading() + ray_angle(x, width as int, self.fov())),
                        ),
                        wall,
                        void,
                    ),
                ),
    {
        let distances = self.distance_to_walls(width);
        draw_walls(frame, width, height, &distances, wall, void);
    }

    /// Turns the player left by `PAN_STEP`.
    pub fn pan_left(&mut self)
        requires
            old(self).wf(),
        ensures
            final(self).wf(),
            final(self).heading() == (old(self).heading() - PAN_STEP) % (TURN as int),
            *final(self) == old(self).after(Command::Pan(PanDirection::Left)),
            final(self).position() == old(self).position(),
            final(self).map() == old(self).map(),
            final(self).trig() == old(self).trig(),
            final(self).fov() == old(self).fov(),
    {
        self.player_heading = normalize_angle(self.player_heading - PAN_STEP);
    }

    /// Turns the player right by `PAN_STEP`.
    pub fn pan_right(&mut self)
        requires
            old(self).wf(),
        ensures
            final(self).wf(),
            final(self).heading() == (old(self).heading() + PAN_STEP) % (TURN as int),
            *final(self) == old(self).after(Command::Pan(PanDirection::Right)),
            final(self).position() == old(self).position(),
            final(self).map() == old(self).map(),
            final(self).trig() == old(self).trig(),
            final(self).fov() == old(self).fov(),
    {
        self.player_heading = normalize_angle(self.player_heading + PAN_STEP);
    }

    /// The point one move away from the player in the direction of `heading`.
    pub open spec fn move_target(&self, heading: Heading) -> (int, int) {
        forward_point(
            self.trig(),
            self.position(),
            self.heading() + heading_offset(heading),
            MOVE_STEP as int,
        )
    }

    /// The world after one command.
    pub closed spec fn after(self, c: Command) -> World {
        match c {
            Command::Move(h) => {
                let t = self.move_target(h);
                if point_is_wall(self.map, t) {
                    self
                } else {
                    World { player_pos: (t.0 as i64, t.1 as i64), ..self }
                }
            },
            Command::Pan(PanDirection::Left) => World {
                player_heading: ((self.heading() - PAN_STEP) % (TURN as int)) as i64,
                ..self
            },
            Command::Pan(PanDirection::Right) => World {
                player_heading: ((self.heading() + PAN_STEP) % (TURN as int)) as i64,
                ..self
            },
        }
    }

    /// The world after the commands of `keys`, first to last.
    pub open spec fn after_keys(self, keys: Seq<MyKeys>) -> World
        decreases keys.len(),
    {
        if keys.len() == 0 {
            self
        } else {
            self.after_keys(keys.drop_last()).after(command_for(keys.last()))
        }
    }

    /// Carries out one command.
    pub fn apply(&mut self, c: Command)
        requires
            old(self).wf(),
        ensures
            final(self).wf(),
            *final(self) == old(self).after(c),
            command_effect(*old(self), *final(self), c),
    {
        proof {
            lemma_command_effect(*self, c);
        }
        match c {
            Command::Move(h) => self.move_player(h),
            Command::Pan(PanDirection::Left) => self.pan_left(),
            Command::Pan(PanDirection::Right) => self.pan_right(),
        }
    }

    /// Runs one tick: carries out the command of every key of `keys`, each
    /// once, in the fixed key order. Returns whether any key was held, that
    /// is whether the view may have changed.
    pub fn on_tick(&mut self, keys: &KeySet) -> (r: bool)
        requires
            old(self).wf(),
            keys.wf(),
        ensures
            final(self).wf(),
            *final(self) == old(self).after_keys(ordered_keys(keys@)),
            r == (ordered_keys(keys@).len() > 0),
    {
        let list = keys.keys();
        let mut i: usize = 0;
        while i < list.len()
            invariant
                self.wf(),
                0 <= i <= list.len(),
                list@ == ordered_keys(keys@),
                *self == old(self).after_keys(list@.subrange(0, i as int)),
            decreases list.len() - i,
        {
            let c = key_command(list[i]);
            self.apply(c);
            proof {
                assert(list@.subrange(0, i + 1).drop_last() =~= list@.subrange(0, i as int));
            }
            i = i + 1;
        }
        proof {
            assert(list@.subrange(0, list.len() as int) =~= list@);
        }
        list.len() > 0
    }

    /// Moves the player by `MOVE_STEP` in the direction of `heading`, taken
    /// relative to where the player faces, unless that lands in a wall; then
    /// nothing changes.
    pub fn move_player(&mut self, heading: Heading)
        requires
            old(self).wf(),
        ensures
            final(self).wf(),
            point_is_wall(old(self).map(), old(self).move_target(heading)) ==> final(self).position()
                == old(self).position(),
            !point_is_wall(old(self).map(), old(self).move_target(heading)) ==> final(self).position()
                == old(self).move_target(heading),
            *final(self) == old(self).after(Command::Move(heading)),
            final(self).heading() == old(self).heading(),
            final(self).map() == old(self).map(),
            final(self).trig() == old(self).trig(),
            final(self).fov() == old(self).fov(),
    {
        proof {
            lemma_open_point_bounds(self.map, self.player_pos);
        }
        let offset: i64 = match heading {
            Heading::Forward => 0,
            Heading::Backward => HALF_TURN,
            Heading::Left => -QUARTER_TURN,
            Heading::Right => QUARTER_TURN,
        };
        let new_pos = move_forward(self.player_pos, self.player_heading + offset, MOVE_STEP, &self.trig);
        if !self.is_wall(new_pos) {
            self.player_pos = new_pos;
        }
    }
}

/// The cell index of a coordinate greater than `-UNIT`.
fn scale_cell(v: i64) -> (r: i64)
    requires
        v > -UNIT,
    ensures
        r == cell_of(v as int),
{
    if v >= 0 {
        v / UNIT
    } else {
        proof {
            assert((-(v as int)) / (UNIT as int) == 0);
        }
        0
    }
}

proof fn lemma_negative_cell(v: int)
    ensures
        v <= -UNIT ==> cell_of(v) <= -1,
{
    if v <= -UNIT {
        assert((-v) / (UNIT as int) >= 1) by (nonlinear_arith)
            requires
                -v >= UNIT,
        ;
    }
}

proof fn lemma_same_direction(trig: TrigTable, a: int, b: int)
    requires
        a % (TURN as int) == b % (TURN as int),
    ensures
        trig.sin_of(a) == trig.sin_of(b),
        trig.cos_of(a) == trig.cos_of(b),
{
    vstd::arithmetic::div_mod::lemma_add_mod_noop(a, QUARTER_TURN as int, TURN as int);
    vstd::arithmetic::div_mod::lemma_add_mod_noop(b, QUARTER_TURN as int, TURN as int);
}

/// Directions a whole number of turns apart march to the same distance.
proof fn lemma_march_periodic(w: World, a: int, b: int, d: int)
    requires
        a % (TURN as int) == b % (TURN as int),
    ensures
        w.march_from(a, d) == w.march_from(b, d),
    decreases w.guard_distance() + MARCH_STEP - d,
{
    lemma_same_direction(w.trig(), a, b);
    assert(w.hits_at(a, d) == w.hits_at(b, d));
    if !(d >= w.guard_distance() || w.hits_at(a, d)) {
        lemma_march_periodic(w, a, b, d + MARCH_STEP);
    }
}

proof fn lemma_table_bounds(trig: TrigTable, a: int)
    requires
        trig.wf(),
    ensures
        -UNIT <= trig.sin_of(a) <= UNIT,
        -UNIT <= trig.cos_of(a) <= UNIT,
{
    let i = a % (TURN as int);
    let j = (a + QUARTER_TURN) % (TURN as int);
    assert(0 <= i < TURN && 0 <= j < TURN);
    assert(-UNIT <= trig.sines()[i] <= UNIT);
    assert(-UNIT <= trig.sines()[j] <= UNIT);
}

/// What a command does, seen through the world's views: a move goes to
/// its target unless that lies in a wall, a pan turns by `PAN_STEP`, and
/// nothing else changes.
pub open spec fn command_effect(before: World, after: World, c: Command) -> bool {
    &&& after.map() == before.map()
    &&& after.trig() == before.trig()
    &&& after.fov() == before.fov()
    &&& match c {
        Command::Move(h) => {
            &&& after.heading() == before.heading()
            &&& after.position() == (if point_is_wall(before.map(), before.move_target(h)) {
                before.position()
            } else {
                before.move_target(h)
            })
        },
        Command::Pan(PanDirection::Left) => {
            &&& after.position() == before.position()
            &&& after.heading() == (before.heading() - PAN_STEP) % (TURN as int)
        },
        Command::Pan(PanDirection::Right) => {
            &&& after.position() == before.position()
            &&& after.heading() == (before.heading() + PAN_STEP) % (TURN as int)
        },
    }
}

/// The effect of one command on a well-formed world, over its views.
pub proof fn lemma_command_effect(w: World, c: Command)
    requires
        w.wf(),
    ensures
        command_effect(w, w.after(c), c),
{
    lemma_command_keeps_player_open(w, c);
}

/// One command keeps the player out of the walls.
pub proof fn lemma_command_keeps_player_open(w: World, c: Command)
    requires
        w.wf(),
    ensures
        w.after(c).wf(),
        !point_is_wall(w.after(c).map(), w.after(c).position()),
{
    match c {
        Command::Move(h) => {
            let t = w.move_target(h);
            if !point_is_wall(w.map, t) {
                lemma_open_point_bounds(w.map, w.player_pos);
                let a = w.heading() + heading_offset(h);
                lemma_table_bounds(w.trig, a);
                lemma_offset_bounds(w.trig.cos_of(a), MOVE_STEP as int);
                lemma_offset_bounds(w.trig.sin_of(a), MOVE_STEP as int);
                assert(w.after(c).position() == t);
            }
        },
        Command::Pan(_) => {},
    }
}

/// Every position the player reaches through the commands of any keys,
/// from a well-formed world, lies outside the walls.
pub proof fn lemma_reachable_positions_open(w: World, keys: Seq<MyKeys>)
    requires
        w.wf(),
    ensures
        w.after_keys(keys).wf(),
        !point_is_wall(w.after_keys(keys).map(), w.after_keys(keys).position()),
    decreases keys.len(),
{
    if keys.len() > 0 {
        lemma_reachable_positions_open(w, keys.drop_last());
        lemma_command_keeps_player_open(w.after_keys(keys.drop_last()), command_for(keys.last()));
    }
}

/// Whether `w` is the starting room of `World::new`, facing along x.
pub open spec fn is_starting_room(w: World) -> bool {
    &&& w.wf()
    &&& w.map().width() == 5
    &&& w.map().height() == 5
    &&& forall|x: int, y: int|
        #[trigger] w.map().wall_at(x, y) == (!w.map().in_bounds(x, y) || GridMap::on_border(x, y, 5, 5))
    &&& w.position() == (2 * UNIT, 2 * UNIT)
}

proof fn lemma_starting_room_march(w: World, d: int)
    requires
        is_starting_room(w),
        w.trig().cos_of(0) == UNIT,
        w.trig().sin_of(0) == 0,
        0 <= d <= 2 * UNIT,
        d % (MARCH_STEP as int) == 0,
    ensures
        w.march_from(0, d) == 2 * UNIT,
    decreases 2 * UNIT - d,
{
    let p = forward_point(w.trig(), w.position(), 0, d);
    vstd::arithmetic::div_mod::lemma_div_multiples_vanish(d, UNIT as int);
    assert(UNIT * d == (UNIT as int) * d);
    assert(p == (2 * UNIT + d, 2 * UNIT));
    assert(cell_of(2 * UNIT) == 2);
    if d < 2 * UNIT {
        assert(2 <= cell_of(2 * UNIT + d) <= 3) by (nonlinear_arith)
            requires
                0 <= d < 2 * UNIT,
                cell_of(2 * UNIT + d) == (2 * UNIT + d) / (UNIT as int),
        ;
        assert(!w.hits_at(0, d));
        lemma_starting_room_march(w, d + MARCH_STEP);
    } else {
        assert(cell_of(4 * UNIT) == 4);
        assert(w.hits_at(0, d));
    }
}

/// In the starting room, with a table whose zero direction points exactly
/// along x, the wall straight ahead is found exactly two units away: the
/// border cell begins at x = 4 and the player stands at x = 2.
pub proof fn lemma_starting_room_distance(w: World)
    requires
        is_starting_room(w),
        w.trig().cos_of(0) == UNIT,
        w.trig().sin_of(0) == 0,
    ensures
        w.march_distance(0) == 2 * UNIT,
{
    lemma_starting_room_march(w, 0);
}

} // verus!

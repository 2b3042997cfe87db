use vstd::prelude::*;
use vstd::arithmetic::div_mod::{
    lemma_fundamental_div_mod,
    lemma_fundamental_div_mod_converse,
};

verus! {

/// Fixed-point units in one grid unit. Positions and distances are counted
/// in these units, and a sine or cosine of `UNIT` stands for 1.
pub const UNIT: i64 = 10_000;

/// Angle units in one full turn. Angles are binary angles: `TURN / 2` is a
/// half turn (pi radians), `TURN / 4` a quarter turn.
pub const TURN: i64 = 65_536;

/// A half turn (pi radians).
pub const HALF_TURN: i64 = 32_768;

/// A quarter turn (pi / 2 radians).
pub const QUARTER_TURN: i64 = 16_384;

/// The largest magnitude of a coordinate or a distance handed to
/// `move_forward`, so that every product stays inside `i64`.
pub const COORD_LIMIT: i64 = 1_099_511_627_776;

/// The largest grid coordinate handed to `move_forward_floored`.
pub const CELL_LIMIT: usize = 67_108_864;

/// The largest number of rays `generate_ray_angles` produces.
pub const MAX_RAYS: usize = 1_048_576;

/// `v / d` rounded toward zero, as integer division does on machine integers.
pub open spec fn div_toward_zero(v: int, d: int) -> int {
    if v >= 0 {
        v / d
    } else {
        -((-v) / d)
    }
}

/// `v / UNIT` rounded toward zero.
fn scale_down(v: i64) -> (r: i64)
    requires
        v > i64::MIN,
    ensures
        r == div_toward_zero(v as int, UNIT as int),
{
    if v >= 0 {
        v / UNIT
    } else {
        -((-v) / UNIT)
    }
}

/// The angle `a` brought into one turn: its residue modulo `TURN`.
pub fn normalize_angle(a: i64) -> (r: i64)
    ensures
        r as int == (a as int) % (TURN as int),
        0 <= r < TURN,
{
    if a >= 0 {
        a % TURN
    } else {
        let k: i64 = -(a + 1);
        let m: i64 = k % TURN;
        proof {
            lemma_fundamental_div_mod(k as int, TURN as int);
            let q = (k as int) / (TURN as int);
            assert(a as int == (-(q + 1)) * (TURN as int) + (TURN - 1 - m)) by (nonlinear_arith)
                requires
                    k as int == q * (TURN as int) + (m as int),
                    k == -(a + 1),
            ;
            lemma_fundamental_div_mod_converse(a as int, TURN as int, -(q + 1), (TURN - 1 - m) as int);
        }
        TURN - 1 - m
    }
}

/// A table of sines, one for each angle unit of a turn, in fixed-point units.
/// Whoever builds it decides how closely it follows the true sine; the
/// engine's results are stated over the table.
pub struct TrigTable {
    sines: Vec<i64>,
}

/// Whether `v` can serve as a table of sines: one value per angle unit, each
/// within one unit of magnitude.
pub open spec fn valid_sines(v: Seq<i64>) -> bool {
    &&& v.len() == TURN
    &&& forall|i: int| 0 <= i < v.len() ==> -UNIT <= #[trigger] v[i] <= UNIT
}

impl TrigTable {
    pub closed spec fn sines(&self) -> Seq<i64> {
        self.sines@
    }

    pub open spec fn wf(&self) -> bool {
        valid_sines(self.sines())
    }

    /// The sine of angle `a`, taken from the table.
    pub open spec fn sin_of(&self, a: int) -> int {
        self.sines()[a % (TURN as int)] as int
    }

    /// The cosine of angle `a`: the sine a quarter turn further.
    pub open spec fn cos_of(&self, a: int) -> int {
        self.sin_of(a + QUARTER_TURN)
    }

    /// A table over `sines`, or `None` unless it holds exactly one value per
    /// angle unit of a turn, each in `[-UNIT, UNIT]`.
    pub fn from_sines(sines: Vec<i64>) -> (r: Option<TrigTable>)
        ensures
            r.is_some() <==> valid_sines(sines@),
            r.is_some() ==> r.unwrap().sines() == sines@,
    {
        if sines.len() != TURN as usize {
            return None;
        }
        let mut i: usize = 0;
        while i < sines.len()
            invariant
                sines.len() == TURN,
                0 <= i <= sines.len(),
                forall|j: int| 0 <= j < i ==> -UNIT <= #[trigger] sines@[j] <= UNIT,
            decreases sines.len() - i,
        {
            if sines[i] < -UNIT || sines[i] > UNIT {
                return None;
            }
            i = i + 1;
        }
        Some(TrigTable { sines })
    }

    /// The sine of angle `a`.
    pub fn sin(&self, a: i64) -> (r: i64)
        requires
            self.wf(),
        ensures
            r == self.sin_of(a as int),
            -UNIT <= r <= UNIT,
    {
        let i = normalize_angle(a);
        self.sines[i as usize]
    }

    /// The cosine of angle `a`.
    pub fn cos(&self, a: i64) -> (r: i64)
        requires
            self.wf(),
            a <= i64::MAX - QUARTER_TURN,
        ensures
            r == self.cos_of(a as int),
            -UNIT <= r <= UNIT,
    {
        self.sin(a + QUARTER_TURN)
    }
}

/// The point `distance` away from `pos` in direction `direction`, each
/// offset rounded toward zero.
pub open spec fn forward_point(trig: TrigTable, pos: (int, int), direction: int, distance: int) -> (int, int) {
    (
        pos.0 + div_toward_zero(trig.cos_of(direction) * distance, UNIT as int),
        pos.1 + div_toward_zero(trig.sin_of(direction) * distance, UNIT as int),
    )
}

pub open spec fn within_coord_limit(v: int) -> bool {
    -COORD_LIMIT <= v <= COORD_LIMIT
}

pub(crate) proof fn lemma_offset_bounds(c: int, d: int)
    requires
        -UNIT <= c <= UNIT,
        within_coord_limit(d),
    ensures
        -UNIT * COORD_LIMIT <= c * d <= UNIT * COORD_LIMIT,
        within_coord_limit(div_toward_zero(c * d, UNIT as int)),
{
    assert(-UNIT * COORD_LIMIT <= c * d <= UNIT * COORD_LIMIT) by (nonlinear_arith)
        requires
            -UNIT <= c <= UNIT,
            -COORD_LIMIT <= d <= COORD_LIMIT,
    ;
    let v = c * d;
    if v >= 0 {
        assert(v / (UNIT as int) <= COORD_LIMIT) by (nonlinear_arith)
            requires
                0 <= v <= UNIT * COORD_LIMIT,
        ;
        assert(v / (UNIT as int) >= 0) by (nonlinear_arith)
            requires
                0 <= v,
        ;
    } else {
        assert((-v) / (UNIT as int) <= COORD_LIMIT) by (nonlinear_arith)
            requires
                0 <= -v <= UNIT * COORD_LIMIT,
        ;
        assert((-v) / (UNIT as int) >= 0) by (nonlinear_arith)
            requires
                0 <= -v,
        ;
    }
}

/// Moves `pos` by `distance` in direction `direction`.
pub fn move_forward(pos: (i64, i64), direction: i64, distance: i64, trig: &TrigTable) -> (r: (i64, i64))
    requires
        trig.wf(),
        direction <= i64::MAX - QUARTER_TURN,
        within_coord_limit(pos.0 as int),
        within_coord_limit(pos.1 as int),
        within_coord_limit(distance as int),
    ensures
        (r.0 as int, r.1 as int) == forward_point(*trig, (pos.0 as int, pos.1 as int), direction as int, distance as int),
{
    let c = trig.cos(direction);
    let s = trig.sin(direction);
    proof {
        lemma_offset_bounds(c as int, distance as int);
        lemma_offset_bounds(s as int, distance as int);
    }
    let x = pos.0 + scale_down(c * distance);
    let y = pos.1 + scale_down(s * distance);
    (x, y)
}

/// The grid cell of a coordinate that is truncated the way a float cast to
/// `usize` is: toward zero, and negative values saturate to zero.
pub open spec fn floored_cell(v: int) -> int {
    if v < 0 {
        0
    } else {
        v / (UNIT as int)
    }
}

/// Moves from the cell corner `pos` by `distance` in direction `direction`
/// and returns the cell that is reached.
pub fn move_forward_floored(pos: (usize, usize), direction: i64, distance: i64, trig: &TrigTable) -> (r: (usize, usize))
    requires
        trig.wf(),
        direction <= i64::MAX - QUARTER_TURN,
        pos.0 <= CELL_LIMIT,
        pos.1 <= CELL_LIMIT,
        within_coord_limit(distance as int),
    ensures
        ({
            let p = forward_point(*trig, (pos.0 * UNIT, pos.1 * UNIT), direction as int, distance as int);
            r.0 as int == floored_cell(p.0) && r.1 as int == floored_cell(p.1)
        }),
{
    let start: (i64, i64) = ((pos.0 as i64) * UNIT, (pos.1 as i64) * UNIT);
    let (x, y) = move_forward(start, direction, distance, trig);
    proof {
        lemma_offset_bounds(trig.cos_of(direction as int), distance as int);
        lemma_offset_bounds(trig.sin_of(direction as int), distance as int);
        assert((x as int) / (UNIT as int) <= 219_902_326) by (nonlinear_arith)
            requires
                x as int <= 2 * COORD_LIMIT,
        ;
        assert((y as int) / (UNIT as int) <= 219_902_326) by (nonlinear_arith)
            requires
                y as int <= 2 * COORD_LIMIT,
        ;
    }
    let cx: usize = if x < 0 { 0 } else { (x / UNIT) as usize };
    let cy: usize = if y < 0 { 0 } else { (y / UNIT) as usize };
    (cx, cy)
}

/// The angle of ray `i` of `n` spread over a field of view `fov`: the
/// exact angle `-fov / 2 + i * fov / (n - 1)` rounded toward zero, so that
/// rays mirrored about the heading get opposite angles; `0` for a single ray.
pub open spec fn ray_angle(i: int, n: int, fov: int) -> int {
    if n <= 1 {
        0
    } else {
        div_toward_zero((2 * i - (n - 1)) * fov, 2 * (n - 1))
    }
}

/// The angles of `ray_quantity` rays spread evenly over `[-fov/2, fov/2]`,
/// left to right.
pub fn generate_ray_angles(ray_quantity: usize, fov: i64) -> (r: Vec<i64>)
    requires
        0 <= fov <= TURN,
        ray_quantity <= MAX_RAYS,
    ensures
        r.len() == ray_quantity,
        forall|i: int| 0 <= i < ray_quantity ==> r@[i] as int == ray_angle(i, ray_quantity as int, fov as int),
        forall|i: int| 0 <= i < ray_quantity ==> -TURN <= #[trigger] r@[i] <= TURN,
{
    let mut r: Vec<i64> = Vec::new();
    if ray_quantity == 1 {
        r.push(0);
        return r;
    }
    let n = ray_quantity as i64;
    let mut i: usize = 0;
    while i < ray_quantity
        invariant
            0 <= i <= ray_quantity <= MAX_RAYS,
            ray_quantity != 1,
            n == ray_quantity,
            0 <= fov <= TURN,
            r.len() == i,
            forall|j: int| 0 <= j < i ==> r@[j] as int == ray_angle(j, ray_quantity as int, fov as int),
            forall|j: int| 0 <= j < i ==> -TURN <= #[trigger] r@[j] <= TURN,
        decreases ray_quantity - i,
    {
        let k = i as i64;
        let d = 2 * (n - 1);
        proof {
            assert(0 <= (n - 1) * fov <= MAX_RAYS * TURN) by (nonlinear_arith)
                requires
                    0 <= n - 1 < MAX_RAYS,
                    0 <= fov <= TURN,
            ;
        }
        let a: i64 = if 2 * k >= n - 1 {
            proof {
                assert(0 <= (2 * k - (n - 1)) * fov <= (n - 1) * fov) by (nonlinear_arith)
                    requires
                        n - 1 <= 2 * k <= 2 * (n - 1),
                        0 <= fov,
                ;
                assert(((2 * k - (n - 1)) * fov) / (d as int) <= fov) by (nonlinear_arith)
                    requires
                        0 <= (2 * k - (n - 1)) * fov <= (n - 1) * fov,
                        d == 2 * (n - 1),
                        d >= 2,
                        0 <= fov,
                ;
                assert(((2 * k - (n - 1)) * fov) / (d as int) >= 0) by (nonlinear_arith)
                    requires
                        0 <= (2 * k - (n - 1)) * fov,
                        d >= 2,
                ;
            }
            ((2 * k - (n - 1)) * fov) / d
        } else {
            proof {
                assert(0 <= ((n - 1) - 2 * k) * fov <= (n - 1) * fov) by (nonlinear_arith)
                    requires
                        0 <= 2 * k < n - 1,
                        0 <= fov,
                ;
                assert((((n - 1) - 2 * k) * fov) / (d as int) <= fov) by (nonlinear_arith)
                    requires
                        0 <= ((n - 1) - 2 * k) * fov <= (n - 1) * fov,
                        d == 2 * (n - 1),
                        d >= 2,
                        0 <= fov,
                ;
                assert((((n - 1) - 2 * k) * fov) / (d as int) >= 0) by (nonlinear_arith)
                    requires
                        0 <= ((n - 1) - 2 * k) * fov,
                        d >= 2,
                ;
                assert(-((2 * k - (n - 1)) * fov) == ((n - 1) - 2 * k) * fov) by (nonlinear_arith);
                assert((2 * k - (n - 1)) * fov <= 0) by (nonlinear_arith)
                    requires
                        2 * k < n - 1,
                        0 <= fov,
                ;
            }
            -((((n - 1) - 2 * k) * fov) / d)
        };
        r.push(a);
        i = i + 1;
    }
    r
}

/// Degrees as angle units, rounded down.
pub fn degrees_to_angle(degs: u32) -> (r: i64)
    ensures
        r as int == (degs as int) * (TURN as int) / 360,
{
    (degs as i64) * TURN / 360
}

/// Moving by a distance of zero stays in place, whatever the direction.
pub proof fn lemma_move_zero_distance(trig: TrigTable, pos: (int, int), direction: int)
    ensures
        forward_point(trig, pos, direction, 0) == pos,
{
    assert(trig.cos_of(direction) * 0 == 0);
    assert(trig.sin_of(direction) * 0 == 0);
}

proof fn lemma_scaled_half(n: int, f: int)
    requires
        n > 1,
    ensures
        ((n - 1) * f) / (2 * (n - 1)) == f / 2,
{
    lemma_fundamental_div_mod(f, 2);
    let q = f / 2;
    let r = f % 2;
    assert((n - 1) * f == q * (2 * (n - 1)) + (n - 1) * r) by (nonlinear_arith)
        requires
            f == 2 * q + r,
    ;
    assert(0 <= (n - 1) * r < 2 * (n - 1)) by (nonlinear_arith)
        requires
            0 <= r < 2,
            n > 1,
    ;
    lemma_fundamental_div_mod_converse((n - 1) * f, 2 * (n - 1), q, (n - 1) * r);
}

proof fn lemma_ray_near_exact(i: int, n: int, fov: int)
    requires
        n > 1,
    ensures
        -2 * (n - 1) < 2 * (n - 1) * ray_angle(i, n, fov) - (2 * i - (n - 1)) * fov < 2 * (n - 1),
{
    let v = (2 * i - (n - 1)) * fov;
    let d = 2 * (n - 1);
    if v >= 0 {
        lemma_fundamental_div_mod(v, d);
        assert(-d < d * (v / d) - v <= 0) by (nonlinear_arith)
            requires
                v == d * (v / d) + v % d,
                0 <= v % d < d,
        ;
    } else {
        lemma_fundamental_div_mod(-v, d);
        assert(-d < d * ((-v) / d) + v <= 0) by (nonlinear_arith)
            requires
                -v == d * ((-v) / d) + (-v) % d,
                0 <= (-v) % d < d,
        ;
        assert(d * ray_angle(i, n, fov) == -(d * ((-v) / d))) by (nonlinear_arith)
            requires
                ray_angle(i, n, fov) == -((-v) / d),
        ;
    }
}

/// A single ray looks straight ahead. Two rays or more run from the left
/// edge of the field of view, `-fov / 2`, to its right edge, `fov / 2`, the
/// two edges rounded alike so that the first ray mirrors the last (both
/// exact for an even `fov`). Every ray lies within one angle unit of its
/// exact angle `-fov / 2 + i * fov / (n - 1)`, so consecutive rays lie
/// `fov / (n - 1)` apart up to that rounding: `n - 1` times their gap is
/// within `2 * (n - 1)` of `fov`.
pub proof fn lemma_ray_angles_span_fov(n: int, fov: int)
    requires
        n >= 1,
        0 <= fov,
    ensures
        n == 1 ==> ray_angle(0, n, fov) == 0,
        n > 1 ==> ray_angle(0, n, fov) == -(fov / 2),
        n > 1 ==> ray_angle(n - 1, n, fov) == fov / 2,
        n > 1 && fov % 2 == 0 ==> 2 * ray_angle(n - 1, n, fov) == fov,
        forall|i: int|
            0 <= i < n && n > 1 ==> -2 * (n - 1) < 2 * (n - 1) * #[trigger] ray_angle(i, n, fov) - (2 * i - (n
                - 1)) * fov < 2 * (n - 1),
        forall|i: int|
            0 <= i < n - 1 ==> fov - 2 * (n - 1) < (n - 1) * (#[trigger] ray_angle(i + 1, n, fov) - ray_angle(
                i,
                n,
                fov,
            )) < fov + 2 * (n - 1),
{
    if n > 1 {
        assert((2 * 0 - (n - 1)) * fov == -((n - 1) * fov)) by (nonlinear_arith);
        assert((n - 1) * fov >= 0) by (nonlinear_arith)
            requires
                n > 1,
                fov >= 0,
        ;
        assert((2 * (n - 1) - (n - 1)) * fov == (n - 1) * fov) by (nonlinear_arith);
        lemma_scaled_half(n, fov);
        if (n - 1) * fov == 0 {
            assert(fov == 0) by (nonlinear_arith)
                requires
                    (n - 1) * fov == 0,
                    n > 1,
            ;
        }
        assert forall|i: int| 0 <= i < n && n > 1 implies -2 * (n - 1) < 2 * (n - 1) * #[trigger] ray_angle(i, n, fov)
            - (2 * i - (n - 1)) * fov < 2 * (n - 1) by {
            lemma_ray_near_exact(i, n, fov);
        }
        assert forall|i: int| 0 <= i < n - 1 implies fov - 2 * (n - 1) < (n - 1) * (#[trigger] ray_angle(
            i + 1,
            n,
            fov,
        ) - ray_angle(i, n, fov)) < fov + 2 * (n - 1) by {
            lemma_ray_near_exact(i, n, fov);
            lemma_ray_near_exact(i + 1, n, fov);
            let a0 = ray_angle(i, n, fov);
            let a1 = ray_angle(i + 1, n, fov);
            assert(fov - 2 * (n - 1) < (n - 1) * (a1 - a0) < fov + 2 * (n - 1)) by (nonlinear_arith)
                requires
                    -2 * (n - 1) < 2 * (n - 1) * a0 - (2 * i - (n - 1)) * fov < 2 * (n - 1),
                    -2 * (n - 1) < 2 * (n - 1) * a1 - (2 * (i + 1) - (n - 1)) * fov < 2 * (n - 1),
            ;
        }
    }
}

} // verus!

use vstd::prelude::*;
use rgb::RGBA8;
use crate::geometry::UNIT;

verus! {

/// `rgb::Rgba`, a plain struct of four public colour fields, read as it is.
#[verifier::external_type_specification]
#[verifier::reject_recursive_types(T)]
#[verifier::reject_recursive_types(A)]
pub struct ExRgba<T, A>(rgb::Rgba<T, A>);

/// Bytes per pixel of an RGBA8 frame.
pub const BYTES_PER_PIXEL: usize = 4;

/// The smallest distance a column is projected from, so that a wall touching
/// the player gives a finite height.
pub const MIN_DISTANCE: i64 = 1;

/// The four bytes of `color`, in RGBA order.
pub open spec fn color_bytes(color: RGBA8) -> Seq<u8> {
    seq![color.r, color.g, color.b, color.a]
}

/// The byte offset of pixel `(x, y)` in a row-major frame `width` pixels wide.
pub open spec fn pixel_offset(width: int, x: int, y: int) -> int {
    (y * width + x) * BYTES_PER_PIXEL
}

/// Whether the four bytes of `frame` at `offset` spell `color`.
pub open spec fn pixel_is(frame: Seq<u8>, offset: int, color: RGBA8) -> bool {
    frame.subrange(offset, offset + 4) == color_bytes(color)
}

/// `frame` with the pixel at byte `offset` painted `color`.
pub open spec fn with_pixel(frame: Seq<u8>, offset: int, color: RGBA8) -> Seq<u8> {
    frame.update(offset, color.r).update(offset + 1, color.g).update(offset + 2, color.b).update(
        offset + 3,
        color.a,
    )
}

/// Paints pixel `(x, y)` of a row-major RGBA8 frame `width` pixels wide.
pub fn put_pixel(frame: &mut [u8], width: usize, x: usize, y: usize, color: RGBA8)
    requires
        pixel_offset(width as int, x as int, y as int) + 4 <= old(frame)@.len(),
    ensures
        final(frame)@ == with_pixel(old(frame)@, pixel_offset(width as int, x as int, y as int), color),
{
    let n = frame.len();
    proof {
        assert(0 <= width * y <= width * y + x) by (nonlinear_arith);
        assert(width * y == y * width) by (nonlinear_arith);
    }
    let idx = (width * y + x) * BYTES_PER_PIXEL;
    frame[idx] = color.r;
    frame[idx + 1] = color.g;
    frame[idx + 2] = color.b;
    frame[idx + 3] = color.a;
}

/// The largest screen height a column is projected onto.
pub const MAX_SCREEN_HEIGHT: usize = 1_048_576;

/// The height in pixels of a wall seen `distance` away on a screen
/// `screen_height` pixels high: the screen height divided by the distance in
/// grid units, rounded down, the distance raised to `MIN_DISTANCE` first and
/// the result capped at the screen height.
pub open spec fn projected_height(screen_height: int, distance: int) -> int {
    let d = if distance < MIN_DISTANCE { MIN_DISTANCE as int } else { distance };
    let h = screen_height * UNIT / d;
    if h > screen_height { screen_height } else { h }
}

/// The column height for a wall `distance` away, in fixed-point units.
pub fn column_height(screen_height: usize, distance: i64) -> (r: usize)
    requires
        screen_height <= MAX_SCREEN_HEIGHT,
    ensures
        r == projected_height(screen_height as int, distance as int),
        r <= screen_height,
{
    let d: i64 = if distance < MIN_DISTANCE { MIN_DISTANCE } else { distance };
    let h: i64 = (screen_height as i64) * UNIT / d;
    if h > screen_height as i64 {
        screen_height
    } else {
        proof {
            assert(h >= 0) by (nonlinear_arith)
                requires
                    h == (screen_height as int) * UNIT / (d as int),
                    d >= 1,
            ;
        }
        h as usize
    }
}

/// Whether row `y` of a screen `height` pixels high lies in a wall band of
/// `column_height` pixels centred on the middle row: the band runs from
/// `height / 2 - column_height / 2` to `height / 2 + column_height / 2`,
/// both halves taken exactly.
pub open spec fn in_wall_band(y: int, height: int, column_height: int) -> bool {
    height - column_height <= 2 * y && 2 * y < height + column_height
}

/// The colour of row `y` of a centred column.
pub open spec fn column_color(y: int, height: int, column_height: int, wall: RGBA8, void: RGBA8) -> RGBA8 {
    if in_wall_band(y, height, column_height) {
        wall
    } else {
        void
    }
}

/// `frame` with rows `0 .. rows` of column `x` painted as a centred column.
pub open spec fn painted_column(
    frame: Seq<u8>,
    width: int,
    height: int,
    x: int,
    column_height: int,
    wall: RGBA8,
    void: RGBA8,
    rows: int,
) -> Seq<u8>
    decreases rows,
{
    if rows <= 0 {
        frame
    } else {
        with_pixel(
            painted_column(frame, width, height, x, column_height, wall, void, rows - 1),
            pixel_offset(width, x, rows - 1),
            column_color(rows - 1, height, column_height, wall, void),
        )
    }
}

/// Whether byte `i` belongs to one of the first `height` pixels of column
/// `x`.
pub open spec fn in_column(i: int, width: int, height: int, x: int) -> bool {
    exists|y: int| 0 <= y < height && #[trigger] pixel_offset(width, x, y) <= i < pixel_offset(width, x, y) + 4
}

proof fn lemma_offsets_apart(width: int, x: int, y: int, x2: int, y2: int)
    requires
        0 <= x < width,
        0 <= x2 < width,
        0 <= y,
        0 <= y2,
        x != x2 || y != y2,
    ensures
        pixel_offset(width, x, y) + 4 <= pixel_offset(width, x2, y2) || pixel_offset(width, x2, y2) + 4
            <= pixel_offset(width, x, y),
{
    if y == y2 {
    } else if y < y2 {
        assert(y * width + x < y2 * width + x2) by (nonlinear_arith)
            requires
                y < y2,
                0 <= x < width,
                0 <= x2,
        ;
    } else {
        assert(y2 * width + x2 < y * width + x) by (nonlinear_arith)
            requires
                y2 < y,
                0 <= x2 < width,
                0 <= x,
        ;
    }
}

#[verifier::rlimit(50)]
proof fn lemma_painted_column(
    frame: Seq<u8>,
    width: int,
    height: int,
    x: int,
    column_height: int,
    wall: RGBA8,
    void: RGBA8,
    rows: int,
)
    requires
        0 <= x < width,
        0 <= rows <= height,
        pixel_offset(width, x, height - 1) + 4 <= frame.len(),
    ensures
        ({
            let p = painted_column(frame, width, height, x, column_height, wall, void, rows);
            &&& p.len() == frame.len()
            &&& forall|y: int|
                0 <= y < rows ==> pixel_is(
                    p,
                    #[trigger] pixel_offset(width, x, y),
                    column_color(y, height, column_height, wall, void),
                )
            &&& forall|i: int| 0 <= i < frame.len() && !in_column(i, width, rows, x) ==> p[i] == frame[i]
        }),
    decreases rows,
{
    if rows > 0 {
        lemma_painted_column(frame, width, height, x, column_height, wall, void, rows - 1);
        let prev = painted_column(frame, width, height, x, column_height, wall, void, rows - 1);
        let p = painted_column(frame, width, height, x, column_height, wall, void, rows);
        let o = pixel_offset(width, x, rows - 1);
        assert(o + 4 <= frame.len()) by (nonlinear_arith)
            requires
                0 <= rows - 1 <= height - 1,
                o == ((rows - 1) * width + x) * 4,
                pixel_offset(width, x, height - 1) == ((height - 1) * width + x) * 4,
                pixel_offset(width, x, height - 1) + 4 <= frame.len(),
                0 <= width,
        ;
        assert(o >= 0) by (nonlinear_arith)
            requires
                o == ((rows - 1) * width + x) * 4,
                rows >= 1,
                0 <= x < width,
        ;
        let c = column_color(rows - 1, height, column_height, wall, void);
        assert(p.subrange(o, o + 4) =~= color_bytes(c));
        assert forall|y: int| 0 <= y < rows implies pixel_is(
            p,
            #[trigger] pixel_offset(width, x, y),
            column_color(y, height, column_height, wall, void),
        ) by {
            if y < rows - 1 {
                lemma_offsets_apart(width, x, y, x, rows - 1);
                let oy = pixel_offset(width, x, y);
                assert(0 <= oy < o) by (nonlinear_arith)
                    requires
                        oy == (y * width + x) * 4,
                        o == ((rows - 1) * width + x) * 4,
                        0 <= y < rows - 1,
                        0 <= x < width,
                ;
                assert(p.subrange(oy, oy + 4) =~= prev.subrange(oy, oy + 4));
            }
        }
        assert forall|i: int| 0 <= i < frame.len() && !in_column(i, width, rows, x) implies p[i] == frame[i] by {
            assert(!(o <= i < o + 4));
            assert(!in_column(i, width, rows - 1, x));
        }
    }
}

/// Paints column `x` of a row-major RGBA8 frame `width` by `height` pixels:
/// the rows within `column_height / 2` of the middle row get `wall`, the
/// rows above and below get `void`. Nothing else of the frame changes.
pub fn draw_centered_column(
    frame: &mut [u8],
    width: usize,
    height: usize,
    x: usize,
    column_height: usize,
    wall: RGBA8,
    void: RGBA8,
)
    requires
        x < width,
        pixel_offset(width as int, x as int, height - 1) + 4 <= old(frame)@.len(),
    ensures
        final(frame)@ == painted_column(
            old(frame)@,
            width as int,
            height as int,
            x as int,
            column_height as int,
            wall,
            void,
            height as int,
        ),
        final(frame)@.len() == old(frame)@.len(),
        forall|y: int|
            0 <= y < height ==> pixel_is(
                final(frame)@,
                #[trigger] pixel_offset(width as int, x as int, y),
                column_color(y, height as int, column_height as int, wall, void),
            ),
        forall|i: int|
            0 <= i < old(frame)@.len() && !in_column(i, width as int, height as int, x as int)
                ==> final(frame)@[i] == old(frame)@[i],
{
    let ghost start = frame@;
    let mut y: usize = 0;
    while y < height
        invariant
            x < width,
            0 <= y <= height,
            pixel_offset(width as int, x as int, height - 1) + 4 <= start.len(),
            frame@ == painted_column(
                start,
                width as int,
                height as int,
                x as int,
                column_height as int,
                wall,
                void,
                y as int,
            ),
        decreases height - y,
    {
        proof {
            lemma_painted_column(start, width as int, height as int, x as int, column_height as int, wall, void, y as int);
            assert(pixel_offset(width as int, x as int, y as int) <= pixel_offset(width as int, x as int, height - 1)) by (nonlinear_arith)
                requires
                    y <= height - 1,
                    0 <= x < width,
            ;
        }
        let twice_y: u128 = 2 * (y as u128);
        let in_band = (height as u128) <= (column_height as u128) + twice_y && twice_y < (height as u128)
            + (column_height as u128);
        let color = if in_band { wall } else { void };
        put_pixel(frame, width, x, y, color);
        y = y + 1;
    }
    proof {
        lemma_painted_column(start, width as int, height as int, x as int, column_height as int, wall, void, height as int);
    }
}

/// A column as tall as the screen is all wall, and a column of height zero
/// is all void.
pub proof fn lemma_column_extremes(frame: Seq<u8>, width: int, height: int, x: int, wall: RGBA8, void: RGBA8)
    requires
        0 <= x < width,
        0 <= height,
        pixel_offset(width, x, height - 1) + 4 <= frame.len(),
    ensures
        forall|y: int|
            0 <= y < height ==> pixel_is(
                painted_column(frame, width, height, x, height, wall, void, height),
                #[trigger] pixel_offset(width, x, y),
                wall,
            ),
        forall|y: int|
            0 <= y < height ==> pixel_is(
                painted_column(frame, width, height, x, 0, wall, void, height),
                #[trigger] pixel_offset(width, x, y),
                void,
            ),
{
    lemma_painted_column(frame, width, height, x, height, wall, void, height);
    lemma_painted_column(frame, width, height, x, 0, wall, void, height);
}

proof fn lemma_other_column_untouched(width: int, height: int, x: int, x2: int, y2: int, i: int)
    requires
        0 <= x < width,
        0 <= x2 < width,
        x != x2,
        0 <= y2,
        pixel_offset(width, x2, y2) <= i < pixel_offset(width, x2, y2) + 4,
    ensures
        !in_column(i, width, height, x),
{
    if in_column(i, width, height, x) {
        let y = choose|y: int|
            0 <= y < height && #[trigger] pixel_offset(width, x, y) <= i < pixel_offset(width, x, y) + 4;
        lemma_offsets_apart(width, x, y, x2, y2);
    }
}

/// Projects one wall distance per column onto a row-major RGBA8 frame
/// `width` by `height` pixels, left to right: column `x` is a centred column
/// of the height a wall `distances[x]` away projects to. Columns past the
/// last distance are left as they were.
pub fn draw_walls(frame: &mut [u8], width: usize, height: usize, distances: &Vec<i64>, wall: RGBA8, void: RGBA8)
    requires
        height <= MAX_SCREEN_HEIGHT,
        distances.len() <= width,
        width * height * 4 <= old(frame)@.len(),
    ensures
        final(frame)@.len() == old(frame)@.len(),
        forall|x: int, y: int|
            0 <= x < distances.len() && 0 <= y < height ==> pixel_is(
                final(frame)@,
                #[trigger] pixel_offset(width as int, x, y),
                column_color(y, height as int, projected_height(height as int, distances@[x] as int), wall, void),
            ),
        forall|x: int, y: int|
            distances.len() <= x < width && 0 <= y < height ==> #[trigger] final(frame)@.subrange(
                pixel_offset(width as int, x, y),
                pixel_offset(width as int, x, y) + 4,
            ) == old(frame)@.subrange(pixel_offset(width as int, x, y), pixel_offset(width as int, x, y) + 4),
{
    let mut x: usize = 0;
    while x < distances.len()
        invariant
            height <= MAX_SCREEN_HEIGHT,
            distances.len() <= width,
            0 <= x <= distances.len(),
            width * height * 4 <= frame@.len(),
            frame@.len() == old(frame)@.len(),
            forall|x2: int, y: int|
                0 <= x2 < x && 0 <= y < height ==> pixel_is(
                    frame@,
                    #[trigger] pixel_offset(width as int, x2, y),
                    column_color(y, height as int, projected_height(height as int, distances@[x2] as int), wall, void),
                ),
            forall|x2: int, y: int|
                x <= x2 < width && 0 <= y < height ==> #[trigger] frame@.subrange(
                    pixel_offset(width as int, x2, y),
                    pixel_offset(width as int, x2, y) + 4,
                ) == old(frame)@.subrange(pixel_offset(width as int, x2, y), pixel_offset(width as int, x2, y) + 4),
        decreases distances.len() - x,
    {
        let ch = column_height(height, distances[x]);
        let ghost before = frame@;
        proof {
            assert(pixel_offset(width as int, x as int, height - 1) + 4 <= width * height * 4) by (nonlinear_arith)
                requires
                    0 <= x < width,
                    0 <= height,
            ;
        }
        draw_centered_column(frame, width, height, x, ch, wall, void);
        proof {
            assert forall|x2: int, y: int|
                0 <= x2 < x + 1 && 0 <= y < height implies pixel_is(
                    frame@,
                    #[trigger] pixel_offset(width as int, x2, y),
                    column_color(y, height as int, projected_height(height as int, distances@[x2] as int), wall, void),
                ) by {
                if x2 < x {
                    let o = pixel_offset(width as int, x2, y);
                    assert(0 <= o && o + 4 <= width * height * 4) by (nonlinear_arith)
                        requires
                            o == (y * width + x2) * 4,
                            0 <= x2 < width,
                            0 <= y < height,
                    ;
                    assert forall|i: int| o <= i < o + 4 implies frame@[i] == before[i] by {
                        lemma_other_column_untouched(width as int, height as int, x as int, x2, y, i);
                    }
                    assert(frame@.subrange(o, o + 4) =~= before.subrange(o, o + 4));
                }
            }
            assert forall|x2: int, y: int| x + 1 <= x2 < width && 0 <= y < height implies #[trigger] frame@.subrange(
                pixel_offset(width as int, x2, y),
                pixel_offset(width as int, x2, y) + 4,
            ) == old(frame)@.subrange(pixel_offset(width as int, x2, y), pixel_offset(width as int, x2, y) + 4) by {
                let o = pixel_offset(width as int, x2, y);
                assert(0 <= o && o + 4 <= width * height * 4) by (nonlinear_arith)
                    requires
                        o == (y * width + x2) * 4,
                        0 <= x2 < width,
                        0 <= y < height,
                ;
                assert forall|i: int| o <= i < o + 4 implies frame@[i] == before[i] by {
                    lemma_other_column_untouched(width as int, height as int, x as int, x2, y, i);
                }
                assert(frame@.subrange(o, o + 4) =~= before.subrange(o, o + 4));
                assert(before.subrange(o, o + 4) == old(frame)@.subrange(o, o + 4));
            }
        }
        x = x + 1;
    }
}

} // verus!

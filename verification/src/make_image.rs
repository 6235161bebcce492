//! Drawing of a path and its cursor on a canvas.
//!
//! One grid unit is `UNIT_SIZE` pixels wide. The picture has a margin of
//! `MARGIN` pixels on each side, and a larger y is higher up in it.

use crate::canvas::{blank, Canvas, Color, BLACK, GREEN, RED, WHITE};
use crate::cursor_images::{
    cardinal, cardinal_glyph, diagonal, diagonal_glyph, BitRaster, PixelType,
};
use crate::direction::{delta_x, delta_y, has_dir, mask_has_dir};
use crate::path::{bounds_of, Cursor, Path, Point};
use crate::utility::{lemma_index_in_raster, Bounds, Pos};
use vstd::prelude::*;

verus! {

/// The blank pixels between the outermost points and the picture's edge.
pub const MARGIN: u32 = 20;

/// The pixels from one grid point to the next.
pub const UNIT_SIZE: u32 = 20;

/// The length in pixels of the stroke that marks an edge at its point.
pub const HALF_UNIT_SIZE: u32 = (UNIT_SIZE + 1) / 2;

/// The column of the pixel on which grid column `x` falls.
pub open spec fn pixel_x(bounds: Bounds, x: int) -> int {
    UNIT_SIZE * (x - bounds.x1) + MARGIN
}

/// The row of the pixel on which grid row `y` falls.
pub open spec fn pixel_y(bounds: Bounds, y: int) -> int {
    UNIT_SIZE * (bounds.y2 - y) + MARGIN
}

/// The width of the picture of a path with these bounds.
pub open spec fn picture_width(bounds: Bounds) -> int {
    UNIT_SIZE * (bounds.x2 - bounds.x1) + 2 * MARGIN + 1
}

/// The height of the picture of a path with these bounds.
pub open spec fn picture_height(bounds: Bounds) -> int {
    UNIT_SIZE * (bounds.y2 - bounds.y1) + 2 * MARGIN + 1
}

/// The pixel `j` steps of `(dx, dy)` away from `(x, y)`, for a step of
/// at most one pixel along each axis.
pub open spec fn line_pixel(x: int, y: int, dx: int, dy: int, j: int) -> (int, int) {
    (
        if dx > 0 {
            x + j
        } else if dx < 0 {
            x - j
        } else {
            x
        },
        if dy > 0 {
            y + j
        } else if dy < 0 {
            y - j
        } else {
            y
        },
    )
}

/// True when `p` is one of the first `n` pixels of the stroke that leaves
/// `(x, y)` in steps of `(dx, dy)`. The pixel `(x, y)` itself is no part of
/// the stroke.
pub open spec fn on_line(x: int, y: int, dx: int, dy: int, n: int, p: (int, int)) -> bool {
    exists|j: int| 1 <= j <= n && #[trigger] line_pixel(x, y, dx, dy, j) == p
}

/// The pixels `pixels` with the first `n` pixels of a stroke in black.
pub open spec fn paint_line(
    pixels: Map<(int, int), Color>,
    x: int,
    y: int,
    dx: int,
    dy: int,
    n: int,
) -> Map<(int, int), Color> {
    Map::new(
        |p: (int, int)| pixels.dom().contains(p),
        |p: (int, int)|
            if on_line(x, y, dx, dy, n, p) {
                BLACK
            } else {
                pixels[p]
            },
    )
}

/// The pixel on which the grid position `(x, y)` falls.
fn to_coord(x: Pos, y: Pos, bounds: Bounds) -> (at: (u32, u32))
    requires
        bounds.contains(x as int, y as int),
        pixel_x(bounds, x as int) <= u32::MAX,
        pixel_y(bounds, y as int) <= u32::MAX,
    ensures
        at.0 == pixel_x(bounds, x as int),
        at.1 == pixel_y(bounds, y as int),
{
    let (px, py) = bounds.normalize(x, y);
    (px * UNIT_SIZE + MARGIN, py * UNIT_SIZE + MARGIN)
}

/// Draws a black stroke of `HALF_UNIT_SIZE` pixels that leaves `(x, y)` in
/// steps of `(dx, dy)`.
fn draw_line(img: &mut Canvas, x: u32, y: u32, dx: i32, dy: i32)
    requires
        old(img).wf(),
        -1 <= dx <= 1,
        -1 <= dy <= 1,
        forall|j: int|
            1 <= j <= HALF_UNIT_SIZE ==> {
                let p = #[trigger] line_pixel(x as int, y as int, dx as int, dy as int, j);
                old(img).has_pixel(p.0, p.1)
            },
    ensures
        final(img).wf(),
        final(img).width() == old(img).width(),
        final(img).height() == old(img).height(),
        final(img).pixels() == paint_line(
            old(img).pixels(),
            x as int,
            y as int,
            dx as int,
            dy as int,
            HALF_UNIT_SIZE as int,
        ),
{
    let mut cur_x: u32 = x;
    let mut cur_y: u32 = y;
    let mut i: u32 = 0;
    assert(img.pixels() =~= paint_line(old(img).pixels(), x as int, y as int, dx as int, dy as int, 0));
    while i < HALF_UNIT_SIZE
        invariant
            old(img).wf(),
            -1 <= dx <= 1,
            -1 <= dy <= 1,
            i <= HALF_UNIT_SIZE,
            forall|j: int|
                1 <= j <= HALF_UNIT_SIZE ==> {
                    let p = #[trigger] line_pixel(x as int, y as int, dx as int, dy as int, j);
                    old(img).has_pixel(p.0, p.1)
                },
            (cur_x as int, cur_y as int) == line_pixel(
                x as int,
                y as int,
                dx as int,
                dy as int,
                i as int,
            ),
            img.width() == old(img).width(),
            img.height() == old(img).height(),
            img.pixels() == paint_line(
                old(img).pixels(),
                x as int,
                y as int,
                dx as int,
                dy as int,
                i as int,
            ),
        decreases HALF_UNIT_SIZE - i,
    {
        let ghost before = img.pixels();
        let ghost next = line_pixel(x as int, y as int, dx as int, dy as int, i + 1);
        assert(old(img).has_pixel(next.0, next.1));
        cur_x = (cur_x as i64 + dx as i64) as u32;
        cur_y = (cur_y as i64 + dy as i64) as u32;
        img.put_pixel(cur_x, cur_y, BLACK);
        i += 1;
        proof {
            let after = paint_line(
                old(img).pixels(),
                x as int,
                y as int,
                dx as int,
                dy as int,
                i as int,
            );
            assert forall|p: (int, int)| after.dom().contains(p) implies #[trigger] after[p]
                == before.insert(next, BLACK)[p] by {
                if on_line(x as int, y as int, dx as int, dy as int, i as int, p) {
                    let j = choose|j: int|
                        1 <= j <= i && #[trigger] line_pixel(
                            x as int,
                            y as int,
                            dx as int,
                            dy as int,
                            j,
                        ) == p;
                    if j < i {
                        assert(on_line(x as int, y as int, dx as int, dy as int, i - 1, p));
                    }
                } else if on_line(x as int, y as int, dx as int, dy as int, i - 1, p) {
                    let j = choose|j: int|
                        1 <= j <= i - 1 && #[trigger] line_pixel(
                            x as int,
                            y as int,
                            dx as int,
                            dy as int,
                            j,
                        ) == p;
                    assert(line_pixel(x as int, y as int, dx as int, dy as int, j) == p);
                }
            }
            assert(after.dom().contains(next));
            assert(after =~= before.insert(next, BLACK));
        }
    }
}

/// The pixel `j` steps along the stroke toward `octant` of a point drawn
/// at `(cx, cy)`. Rows count downwards, so a step toward a larger y goes up
/// by a row.
pub open spec fn arm_pixel(cx: int, cy: int, octant: int, j: int) -> (int, int) {
    line_pixel(cx, cy, delta_x(octant), -delta_y(octant), j)
}

/// True when a canvas of `width` by `height` pixels holds every pixel that
/// the drawing of a point at `(cx, cy)` with the edges `dirs` paints: the
/// point itself and the stroke of each of its edges.
pub open spec fn point_fits(cx: int, cy: int, dirs: u8, width: int, height: int) -> bool {
    &&& 0 <= cx < width
    &&& 0 <= cy < height
    &&& forall|octant: int, j: int|
        0 <= octant < 8 && has_dir(dirs, octant) && 1 <= j <= HALF_UNIT_SIZE ==> {
            let p = #[trigger] arm_pixel(cx, cy, octant, j);
            0 <= p.0 < width && 0 <= p.1 < height
        }
}

/// True when `p` lies on the stroke that marks the edge toward `octant`
/// of a point drawn at `(cx, cy)` with the edges `dirs`.
pub open spec fn arm_covers(cx: int, cy: int, dirs: u8, octant: int, p: (int, int)) -> bool {
    has_dir(dirs, octant) && on_line(
        cx,
        cy,
        delta_x(octant),
        -delta_y(octant),
        HALF_UNIT_SIZE as int,
        p,
    )
}

/// True when `p` is the pixel `(cx, cy)` of a point with the edges `dirs`
/// or lies on the stroke of one of its edges toward an octant below `arms`.
pub open spec fn point_covers(cx: int, cy: int, dirs: u8, arms: int, p: (int, int)) -> bool {
    p == (cx, cy) || exists|octant: int|
        0 <= octant < arms && #[trigger] arm_covers(cx, cy, dirs, octant, p)
}

/// The pixels `pixels` with a point and the strokes of its edges toward the
/// octants below `arms` in black.
pub open spec fn paint_point(
    pixels: Map<(int, int), Color>,
    cx: int,
    cy: int,
    dirs: u8,
    arms: int,
) -> Map<(int, int), Color> {
    Map::new(
        |p: (int, int)| pixels.dom().contains(p),
        |p: (int, int)|
            if point_covers(cx, cy, dirs, arms, p) {
                BLACK
            } else {
                pixels[p]
            },
    )
}

/// The step in pixels of the stroke toward `octant`.
fn line_dir(octant: u32) -> (step: (i32, i32))
    requires
        octant < 8,
    ensures
        step.0 == delta_x(octant as int),
        step.1 == -delta_y(octant as int),
{
    if octant == 0 {
        (1, 0)
    } else if octant == 1 {
        (1, -1)
    } else if octant == 2 {
        (0, -1)
    } else if octant == 3 {
        (-1, -1)
    } else if octant == 4 {
        (-1, 0)
    } else if octant == 5 {
        (-1, 1)
    } else if octant == 6 {
        (0, 1)
    } else {
        (1, 1)
    }
}

/// Adding the stroke of one more octant to a drawn point.
proof fn lemma_paint_next_arm(
    pixels: Map<(int, int), Color>,
    cx: int,
    cy: int,
    dirs: u8,
    octant: int,
)
    requires
        0 <= octant < 8,
    ensures
        has_dir(dirs, octant) ==> paint_line(
            paint_point(pixels, cx, cy, dirs, octant),
            cx,
            cy,
            delta_x(octant),
            -delta_y(octant),
            HALF_UNIT_SIZE as int,
        ) == paint_point(pixels, cx, cy, dirs, octant + 1),
        !has_dir(dirs, octant) ==> paint_point(pixels, cx, cy, dirs, octant) == paint_point(
            pixels,
            cx,
            cy,
            dirs,
            octant + 1,
        ),
{
    let before = paint_point(pixels, cx, cy, dirs, octant);
    let after = paint_point(pixels, cx, cy, dirs, octant + 1);
    assert forall|p: (int, int)| #[trigger]
        point_covers(cx, cy, dirs, octant + 1, p) == (point_covers(cx, cy, dirs, octant, p)
            || arm_covers(cx, cy, dirs, octant, p)) by {
        if point_covers(cx, cy, dirs, octant + 1, p) && p != (cx, cy) {
            let o = choose|o: int| 0 <= o < octant + 1 && #[trigger] arm_covers(cx, cy, dirs, o, p);
            assert(arm_covers(cx, cy, dirs, o, p));
        }
        if point_covers(cx, cy, dirs, octant, p) && p != (cx, cy) {
            let o = choose|o: int| 0 <= o < octant && #[trigger] arm_covers(cx, cy, dirs, o, p);
            assert(arm_covers(cx, cy, dirs, o, p));
        }
    }
    if has_dir(dirs, octant) {
        let painted = paint_line(
            before,
            cx,
            cy,
            delta_x(octant),
            -delta_y(octant),
            HALF_UNIT_SIZE as int,
        );
        assert forall|p: (int, int)| painted.dom().contains(p) implies #[trigger] painted[p]
            == after[p] by {
            assert(point_covers(cx, cy, dirs, octant + 1, p) == (point_covers(
                cx,
                cy,
                dirs,
                octant,
                p,
            ) || arm_covers(cx, cy, dirs, octant, p)));
        }
        assert(painted =~= after);
    } else {
        assert forall|p: (int, int)| before.dom().contains(p) implies #[trigger] before[p]
            == after[p] by {
            assert(point_covers(cx, cy, dirs, octant + 1, p) == (point_covers(
                cx,
                cy,
                dirs,
                octant,
                p,
            ) || arm_covers(cx, cy, dirs, octant, p)));
        }
        assert(before =~= after);
    }
}

/// Draws a point as a black pixel with a stroke toward each of its edges.
///
/// The canvas may be of any size that holds the pixels that are painted.
fn draw_point(img: &mut Canvas, point: &Point, bounds: Bounds)
    requires
        old(img).wf(),
        bounds.contains(point.x as int, point.y as int),
        point_fits(
            pixel_x(bounds, point.x as int),
            pixel_y(bounds, point.y as int),
            point.dirs,
            old(img).width(),
            old(img).height(),
        ),
    ensures
        final(img).wf(),
        final(img).width() == old(img).width(),
        final(img).height() == old(img).height(),
        final(img).pixels() == paint_point(
            old(img).pixels(),
            pixel_x(bounds, point.x as int),
            pixel_y(bounds, point.y as int),
            point.dirs,
            8,
        ),
{
    let (x, y) = to_coord(point.x, point.y, bounds);
    img.put_pixel(x, y, BLACK);
    assert(img.pixels() =~= paint_point(old(img).pixels(), x as int, y as int, point.dirs, 0));
    let mut octant: u32 = 0;
    while octant < 8
        invariant
            octant <= 8,
            img.wf(),
            img.width() == old(img).width(),
            img.height() == old(img).height(),
            point_fits(x as int, y as int, point.dirs, img.width(), img.height()),
            img.pixels() == paint_point(
                old(img).pixels(),
                x as int,
                y as int,
                point.dirs,
                octant as int,
            ),
        decreases 8 - octant,
    {
        proof {
            lemma_paint_next_arm(old(img).pixels(), x as int, y as int, point.dirs, octant as int);
        }
        if mask_has_dir(point.dirs, octant) {
            let (dx, dy) = line_dir(octant);
            assert forall|j: int| 1 <= j <= HALF_UNIT_SIZE implies {
                let p = #[trigger] line_pixel(x as int, y as int, dx as int, dy as int, j);
                img.has_pixel(p.0, p.1)
            } by {
                let p = arm_pixel(x as int, y as int, octant as int, j);
                assert(0 <= p.0 < img.width() && 0 <= p.1 < img.height());
            }
            draw_line(img, x, y, dx, dy);
        }
        octant += 1;
    }
}

/// The glyph that shows a cursor facing `dir`.
pub open spec fn cursor_glyph(dir: int) -> BitRaster<'static> {
    if dir % 2 == 0 {
        cardinal_glyph()
    } else {
        diagonal_glyph()
    }
}

/// The column and row of the glyph pixel that is drawn `(u, v)` pixels
/// from the cursor when the glyph is turned by `rotation` quarter turns.
pub open spec fn glyph_source(raster: BitRaster, rotation: int, u: int, v: int) -> (int, int) {
    if rotation == 0 {
        (u + raster.offset_x, v + raster.offset_y)
    } else if rotation == 1 {
        (raster.offset_x - v, u + raster.offset_y)
    } else if rotation == 2 {
        (raster.offset_x - u, raster.offset_y - v)
    } else {
        (v + raster.offset_x, raster.offset_y - u)
    }
}

/// The pixel on which the glyph pixel in column `x` and row `y` is drawn
/// for a cursor at `(cx, cy)` when the glyph is turned by `rotation`
/// quarter turns.
pub open spec fn glyph_target(
    raster: BitRaster,
    rotation: int,
    cx: int,
    cy: int,
    x: int,
    y: int,
) -> (int, int) {
    if rotation == 0 {
        (cx + x - raster.offset_x, cy + y - raster.offset_y)
    } else if rotation == 1 {
        (cx + y - raster.offset_y, cy + raster.offset_x - x)
    } else if rotation == 2 {
        (cx + raster.offset_x - x, cy + raster.offset_y - y)
    } else {
        (cx + raster.offset_y - y, cy + x - raster.offset_x)
    }
}

/// True when a canvas of `width` by `height` pixels holds every pixel that
/// the drawing of the glyph paints: the target of each glyph pixel that is
/// not empty.
pub open spec fn glyph_fits(
    raster: BitRaster,
    rotation: int,
    cx: int,
    cy: int,
    width: int,
    height: int,
) -> bool {
    forall|x: int, y: int|
        0 <= x < raster.width && 0 <= y < raster.height && #[trigger] raster.pixel_type(x, y)
            != PixelType::Empty ==> {
            let t = glyph_target(raster, rotation, cx, cy, x, y);
            0 <= t.0 < width && 0 <= t.1 < height
        }
}

/// The kind of the glyph pixel that is drawn at `p` for a cursor at
/// `(cx, cy)`, counting only the glyph's columns before `col` and the rows
/// before `row` of column `col`. `Empty` where none of them is drawn.
pub open spec fn glyph_kind(
    raster: BitRaster,
    rotation: int,
    cx: int,
    cy: int,
    col: int,
    row: int,
    p: (int, int),
) -> PixelType {
    let (gx, gy) = glyph_source(raster, rotation, p.0 - cx, p.1 - cy);
    if 0 <= gx < raster.width && 0 <= gy < raster.height && (gx < col || (gx == col && gy
        < row)) {
        raster.pixel_type(gx, gy)
    } else {
        PixelType::Empty
    }
}

/// The colour of a pixel on which a glyph pixel of kind `kind` is drawn
/// over the colour `under`.
pub open spec fn glyph_color(kind: PixelType, under: Color) -> Color {
    match kind {
        PixelType::Empty => under,
        PixelType::Fill => RED,
        PixelType::Border => GREEN,
    }
}

/// The pixels `pixels` with the glyph of a cursor at `(cx, cy)` drawn over
/// them, up to column `col` and row `row` of the glyph.
pub open spec fn paint_cursor(
    pixels: Map<(int, int), Color>,
    raster: BitRaster,
    rotation: int,
    cx: int,
    cy: int,
    col: int,
    row: int,
) -> Map<(int, int), Color> {
    Map::new(
        |p: (int, int)| pixels.dom().contains(p),
        |p: (int, int)| glyph_color(glyph_kind(raster, rotation, cx, cy, col, row, p), pixels[p]),
    )
}

/// Drawing the glyph pixel in column `x` and row `y` after those before
/// it: an empty one changes nothing, another one colours its target.
proof fn lemma_paint_next_glyph_pixel(
    pixels: Map<(int, int), Color>,
    raster: BitRaster,
    rotation: int,
    cx: int,
    cy: int,
    x: int,
    y: int,
)
    requires
        0 <= rotation < 4,
        0 <= x < raster.width,
        0 <= y < raster.height,
        raster.pixel_type(x, y) != PixelType::Empty ==> pixels.dom().contains(
            glyph_target(raster, rotation, cx, cy, x, y),
        ),
    ensures
        raster.pixel_type(x, y) == PixelType::Empty ==> paint_cursor(
            pixels,
            raster,
            rotation,
            cx,
            cy,
            x,
            y + 1,
        ) == paint_cursor(pixels, raster, rotation, cx, cy, x, y),
        raster.pixel_type(x, y) != PixelType::Empty ==> paint_cursor(
            pixels,
            raster,
            rotation,
            cx,
            cy,
            x,
            y + 1,
        ) == paint_cursor(pixels, raster, rotation, cx, cy, x, y).insert(
            glyph_target(raster, rotation, cx, cy, x, y),
            glyph_color(raster.pixel_type(x, y), BLACK),
        ),
        y + 1 == raster.height ==> paint_cursor(pixels, raster, rotation, cx, cy, x, y + 1)
            == paint_cursor(pixels, raster, rotation, cx, cy, x + 1, 0),
{
    let before = paint_cursor(pixels, raster, rotation, cx, cy, x, y);
    let after = paint_cursor(pixels, raster, rotation, cx, cy, x, y + 1);
    let target = glyph_target(raster, rotation, cx, cy, x, y);
    let kind = raster.pixel_type(x, y);
    assert(glyph_source(raster, rotation, target.0 - cx, target.1 - cy) == (x, y));
    if kind == PixelType::Empty {
        assert forall|p: (int, int)| after.dom().contains(p) implies #[trigger] after[p]
            == before[p] by {
            let source = glyph_source(raster, rotation, p.0 - cx, p.1 - cy);
            if p != target {
                assert(source != (x, y));
            }
        }
        assert(after =~= before);
    } else {
        let color = glyph_color(kind, BLACK);
        assert forall|p: (int, int)| after.dom().contains(p) implies #[trigger] after[p]
            == before.insert(target, color)[p] by {
            let source = glyph_source(raster, rotation, p.0 - cx, p.1 - cy);
            if p != target {
                assert(source != (x, y));
            }
        }
        assert(after =~= before.insert(target, color));
    }
    if y + 1 == raster.height {
        assert(after =~= paint_cursor(pixels, raster, rotation, cx, cy, x + 1, 0));
    }
}

/// Draws the glyph of the cursor, turned to face the cursor's heading,
/// with its fill in red and its border in green.
///
/// The canvas may be of any size that holds the pixels that are painted.
fn draw_cursor(img: &mut Canvas, cursor: Cursor, bounds: Bounds)
    requires
        old(img).wf(),
        cursor.wf(),
        bounds.contains(cursor.x as int, cursor.y as int),
        pixel_x(bounds, cursor.x as int) <= u32::MAX,
        pixel_y(bounds, cursor.y as int) <= u32::MAX,
        glyph_fits(
            cursor_glyph(cursor.dir as int),
            cursor.dir as int / 2,
            pixel_x(bounds, cursor.x as int),
            pixel_y(bounds, cursor.y as int),
            old(img).width(),
            old(img).height(),
        ),
    ensures
        final(img).wf(),
        final(img).width() == old(img).width(),
        final(img).height() == old(img).height(),
        final(img).pixels() == paint_cursor(
            old(img).pixels(),
            cursor_glyph(cursor.dir as int),
            cursor.dir as int / 2,
            pixel_x(bounds, cursor.x as int),
            pixel_y(bounds, cursor.y as int),
            cursor_glyph(cursor.dir as int).width as int,
            0,
        ),
{
    let raster = if cursor.dir % 2 == 0 {
        cardinal()
    } else {
        diagonal()
    };
    let rotation = cursor.dir / 2;
    let (cx, cy) = to_coord(cursor.x, cursor.y, bounds);
    let ghost start = img.pixels();
    assert(start =~= paint_cursor(start, raster, rotation as int, cx as int, cy as int, 0, 0));
    let mut x: usize = 0;
    while x < raster.width
        invariant
            x <= raster.width,
            raster.wf(),
            raster.width == 12,
            12 <= raster.height <= 13,
            raster.offset_x == 10,
            raster.offset_y <= 6,
            rotation < 4,
            old(img).wf(),
            img.wf(),
            img.width() == old(img).width(),
            img.height() == old(img).height(),
            glyph_fits(
                raster,
                rotation as int,
                cx as int,
                cy as int,
                img.width(),
                img.height(),
            ),
            start == old(img).pixels(),
            img.pixels() == paint_cursor(
                start,
                raster,
                rotation as int,
                cx as int,
                cy as int,
                x as int,
                0,
            ),
        decreases raster.width - x,
    {
        let mut y: usize = 0;
        while y < raster.height
            invariant
                x < raster.width,
                y <= raster.height,
                raster.wf(),
                raster.width == 12,
                12 <= raster.height <= 13,
                raster.offset_x == 10,
                raster.offset_y <= 6,
                rotation < 4,
                old(img).wf(),
                img.wf(),
                img.width() == old(img).width(),
                img.height() == old(img).height(),
                glyph_fits(
                    raster,
                    rotation as int,
                    cx as int,
                    cy as int,
                    img.width(),
                    img.height(),
                ),
                start == old(img).pixels(),
                img.pixels() == paint_cursor(
                    start,
                    raster,
                    rotation as int,
                    cx as int,
                    cy as int,
                    x as int,
                    y as int,
                ),
            decreases raster.height - y,
        {
            proof {
                lemma_index_in_raster(
                    x as int,
                    y as int,
                    raster.width as int,
                    raster.height as int,
                );
            }
            let kind = raster.get(x, y);
            let gx = x as i64;
            let gy = y as i64;
            let ox = raster.offset_x as i64;
            let oy = raster.offset_y as i64;
            let (draw_x, draw_y): (i64, i64) = if rotation == 0 {
                (gx - ox, gy - oy)
            } else if rotation == 1 {
                (gy - oy, ox - gx)
            } else if rotation == 2 {
                (ox - gx, oy - gy)
            } else {
                (oy - gy, gx - ox)
            };
            proof {
                let target = glyph_target(
                    raster,
                    rotation as int,
                    cx as int,
                    cy as int,
                    x as int,
                    y as int,
                );
                assert(target == (cx + draw_x, cy + draw_y));
                assert(kind != PixelType::Empty ==> old(img).has_pixel(target.0, target.1));
                lemma_paint_next_glyph_pixel(
                    start,
                    raster,
                    rotation as int,
                    cx as int,
                    cy as int,
                    x as int,
                    y as int,
                );
            }
            match kind {
                PixelType::Empty => {},
                PixelType::Fill => {
                    img.put_pixel((cx as i64 + draw_x) as u32, (cy as i64 + draw_y) as u32, RED);
                },
                PixelType::Border => {
                    img.put_pixel((cx as i64 + draw_x) as u32, (cy as i64 + draw_y) as u32, GREEN);
                },
            }
            y += 1;
        }
        x += 1;
    }
}

/// Why a path cannot be drawn.
#[derive(Debug, Copy, Clone, Eq, PartialEq, Structural)]
pub enum RenderError {
    /// The picture would have more pixels than an image can hold.
    ImageTooLarge,
    /// The cursor lies outside the rectangle of the path's points.
    CursorOutOfBounds,
}

/// True when the picture of a path with these bounds is one that an image
/// can hold: the bounds are not inverted, the picture's sides fit 32 bits
/// and its bytes fit a vector.
pub open spec fn picture_fits(bounds: Bounds) -> bool {
    &&& bounds.x1 <= bounds.x2
    &&& bounds.y1 <= bounds.y2
    &&& picture_width(bounds) <= u32::MAX
    &&& picture_height(bounds) <= u32::MAX
    &&& 3 * picture_width(bounds) * picture_height(bounds) <= isize::MAX
}

/// True when `p` is covered by the drawing of point `i` of `points`.
pub open spec fn drawn_point_covers(
    points: Seq<Point>,
    bounds: Bounds,
    i: int,
    p: (int, int),
) -> bool {
    point_covers(
        pixel_x(bounds, points[i].x as int),
        pixel_y(bounds, points[i].y as int),
        points[i].dirs,
        8,
        p,
    )
}

/// The pixels `pixels` with the first `n` points of `points` in black.
pub open spec fn paint_points(
    pixels: Map<(int, int), Color>,
    points: Seq<Point>,
    bounds: Bounds,
    n: int,
) -> Map<(int, int), Color> {
    Map::new(
        |p: (int, int)| pixels.dom().contains(p),
        |p: (int, int)|
            if exists|i: int| 0 <= i < n && #[trigger] drawn_point_covers(points, bounds, i, p) {
                BLACK
            } else {
                pixels[p]
            },
    )
}

/// The picture of a path: its points and their edges in black on white,
/// and over them the glyph of the cursor.
pub open spec fn picture(points: Seq<Point>, cursor: Cursor) -> Map<(int, int), Color> {
    let bounds = bounds_of(points);
    let paper = blank(picture_width(bounds), picture_height(bounds), WHITE);
    paint_cursor(
        paint_points(paper, points, bounds, points.len() as int),
        cursor_glyph(cursor.dir as int),
        cursor.dir as int / 2,
        pixel_x(bounds, cursor.x as int),
        pixel_y(bounds, cursor.y as int),
        cursor_glyph(cursor.dir as int).width as int,
        0,
    )
}

/// The width and the height of the picture of a path with these bounds,
/// or `None` when no image can hold it.
pub fn picture_size(bounds: Bounds) -> (size: Option<(u32, u32)>)
    ensures
        match size {
            Some((width, height)) => {
                &&& picture_fits(bounds)
                &&& width == picture_width(bounds)
                &&& height == picture_height(bounds)
            },
            None => !picture_fits(bounds),
        },
{
    if bounds.x1 > bounds.x2 || bounds.y1 > bounds.y2 {
        return None;
    }
    let limit: i128 = u32::MAX as i128;
    let width: i128 = (UNIT_SIZE as i128) * (bounds.x2 as i128 - bounds.x1 as i128) + 2 * (
    MARGIN as i128) + 1;
    let height: i128 = (UNIT_SIZE as i128) * (bounds.y2 as i128 - bounds.y1 as i128) + 2 * (
    MARGIN as i128) + 1;
    if width > limit || height > limit {
        return None;
    }
    assert(0 <= width * height <= 0x1_0000_0000 * 0x1_0000_0000) by (nonlinear_arith)
        requires
            0 <= width <= 0xFFFF_FFFF,
            0 <= height <= 0xFFFF_FFFF,
    ;
    assert(3 * width * height == 3 * (width * height)) by (nonlinear_arith);
    if 3 * (width * height) > isize::MAX as i128 {
        return None;
    }
    Some((width as u32, height as u32))
}

/// Adding the drawing of one more point to the points drawn so far.
proof fn lemma_paint_next_point(
    pixels: Map<(int, int), Color>,
    points: Seq<Point>,
    bounds: Bounds,
    n: int,
)
    requires
        0 <= n < points.len(),
    ensures
        paint_point(
            paint_points(pixels, points, bounds, n),
            pixel_x(bounds, points[n].x as int),
            pixel_y(bounds, points[n].y as int),
            points[n].dirs,
            8,
        ) == paint_points(pixels, points, bounds, n + 1),
{
    let before = paint_points(pixels, points, bounds, n);
    let after = paint_points(pixels, points, bounds, n + 1);
    let painted = paint_point(
        before,
        pixel_x(bounds, points[n].x as int),
        pixel_y(bounds, points[n].y as int),
        points[n].dirs,
        8,
    );
    assert forall|p: (int, int)| painted.dom().contains(p) implies #[trigger] painted[p]
        == after[p] by {
        let old_ink = exists|i: int|
            0 <= i < n && #[trigger] drawn_point_covers(points, bounds, i, p);
        let new_ink = exists|i: int|
            0 <= i < n + 1 && #[trigger] drawn_point_covers(points, bounds, i, p);
        if old_ink {
            let i = choose|i: int|
                0 <= i < n && #[trigger] drawn_point_covers(points, bounds, i, p);
            assert(drawn_point_covers(points, bounds, i, p));
        }
        if drawn_point_covers(points, bounds, n, p) {
            assert(new_ink);
        }
        if new_ink {
            let i = choose|i: int|
                0 <= i < n + 1 && #[trigger] drawn_point_covers(points, bounds, i, p);
            assert(i < n || i == n);
        }
    }
    assert(painted =~= after);
}

/// The picture of a path holds the drawing of each point inside its
/// bounds: the margin is wider than a stroke is long.
proof fn lemma_point_fits_picture(point: Point, bounds: Bounds)
    requires
        bounds.contains(point.x as int, point.y as int),
    ensures
        point_fits(
            pixel_x(bounds, point.x as int),
            pixel_y(bounds, point.y as int),
            point.dirs,
            picture_width(bounds),
            picture_height(bounds),
        ),
{
    let cx = pixel_x(bounds, point.x as int);
    let cy = pixel_y(bounds, point.y as int);
    assert forall|octant: int, j: int|
        0 <= octant < 8 && has_dir(point.dirs, octant) && 1 <= j <= HALF_UNIT_SIZE implies {
        let p = #[trigger] arm_pixel(cx, cy, octant, j);
        0 <= p.0 < picture_width(bounds) && 0 <= p.1 < picture_height(bounds)
    } by {
        let p = arm_pixel(cx, cy, octant, j);
        assert(cx - j <= p.0 <= cx + j && cy - j <= p.1 <= cy + j);
    }
}

/// The picture of a path holds the glyph of a cursor inside its bounds:
/// the margin is wider than either glyph reaches from the cursor.
proof fn lemma_glyph_fits_picture(cursor: Cursor, bounds: Bounds)
    requires
        cursor.wf(),
        bounds.contains(cursor.x as int, cursor.y as int),
    ensures
        glyph_fits(
            cursor_glyph(cursor.dir as int),
            cursor.dir as int / 2,
            pixel_x(bounds, cursor.x as int),
            pixel_y(bounds, cursor.y as int),
            picture_width(bounds),
            picture_height(bounds),
        ),
{
    let raster = cursor_glyph(cursor.dir as int);
    let rotation = cursor.dir as int / 2;
    let cx = pixel_x(bounds, cursor.x as int);
    let cy = pixel_y(bounds, cursor.y as int);
    assert forall|x: int, y: int|
        0 <= x < raster.width && 0 <= y < raster.height && #[trigger] raster.pixel_type(x, y)
            != PixelType::Empty implies {
        let t = glyph_target(raster, rotation, cx, cy, x, y);
        0 <= t.0 < picture_width(bounds) && 0 <= t.1 < picture_height(bounds)
    } by {
        let t = glyph_target(raster, rotation, cx, cy, x, y);
        assert(cx - MARGIN <= t.0 <= cx + MARGIN && cy - MARGIN <= t.1 <= cy + MARGIN);
    }
}

/// Draws the path and its cursor: a white picture, each point in black
/// with a stroke toward each of its edges, and the cursor's glyph on top.
///
/// The cursor has to lie within the rectangle of the path's points, and
/// the picture has to be one that an image can hold.
pub fn make_image(program: &Path) -> (out: Result<Canvas, RenderError>)
    requires
        program.cursor.wf(),
    ensures
        match out {
            Ok(canvas) => {
                &&& picture_fits(bounds_of(program.points@))
                &&& bounds_of(program.points@).contains(
                    program.cursor.x as int,
                    program.cursor.y as int,
                )
                &&& canvas.wf()
                &&& canvas.width() == picture_width(bounds_of(program.points@))
                &&& canvas.height() == picture_height(bounds_of(program.points@))
                &&& canvas.pixels() == picture(program.points@, program.cursor)
            },
            Err(RenderError::ImageTooLarge) => !picture_fits(bounds_of(program.points@)),
            Err(RenderError::CursorOutOfBounds) => {
                &&& picture_fits(bounds_of(program.points@))
                &&& !bounds_of(program.points@).contains(
                    program.cursor.x as int,
                    program.cursor.y as int,
                )
            },
        },
{
    let bounds = program.get_bounds();
    let (width, height) = match picture_size(bounds) {
        Some(size) => size,
        None => {
            return Err(RenderError::ImageTooLarge);
        },
    };
    let cursor = program.cursor;
    if cursor.x < bounds.x1 || cursor.x > bounds.x2 || cursor.y < bounds.y1 || cursor.y
        > bounds.y2 {
        return Err(RenderError::CursorOutOfBounds);
    }
    assert(3 * width <= 3 * width * height) by (nonlinear_arith)
        requires
            0 <= width,
            1 <= height,
    ;
    let mut img = Canvas::filled(width, height, WHITE);
    let ghost paper = img.pixels();
    assert(paper =~= paint_points(paper, program.points@, bounds, 0));
    let mut i: usize = 0;
    while i < program.points.len()
        invariant
            i <= program.points.len(),
            bounds == bounds_of(program.points@),
            forall|k: int|
                0 <= k < program.points@.len() ==> bounds.contains(
                    (#[trigger] program.points@[k]).x as int,
                    program.points@[k].y as int,
                ),
            img.wf(),
            img.width() == picture_width(bounds),
            img.height() == picture_height(bounds),
            paper == blank(picture_width(bounds), picture_height(bounds), WHITE),
            img.pixels() == paint_points(paper, program.points@, bounds, i as int),
        decreases program.points.len() - i,
    {
        proof {
            lemma_paint_next_point(paper, program.points@, bounds, i as int);
            lemma_point_fits_picture(program.points@[i as int], bounds);
        }
        draw_point(&mut img, &program.points[i], bounds);
        i += 1;
    }
    proof {
        lemma_glyph_fits_picture(cursor, bounds);
    }
    draw_cursor(&mut img, cursor, bounds);
    Ok(img)
}

} // verus!

//! The frame buffer and the triangle rasterizer that fills it.
use vstd::prelude::*;
use vstd::arithmetic::div_mod::lemma_fundamental_div_mod;
use vstd::arithmetic::mul::lemma_mul_inequality;
use crate::color::Color;
use crate::payload::{buf_to_payload, grid_width, is_payload_of, rectangular};
use crate::protocol::{
    chunked_wire, encode, control_wire, Command, ControlAction, ControlCommand, ImageAction,
    ImageCommand, Quietness,
};
use crate::raster::{
    bounding_box, edge, edge_at, in_box, edge_step_x, edge_step_y, lemma_edge_bound,
    lemma_step_down, lemma_step_right, paints, pixel_box, ScreenPoint, SUBPIXEL,
};

verus! {

/// A `width` x `height` pixel grid, stored `scale` times larger along each axis.
pub struct Screen {
    width: usize,
    height: usize,
    scale: usize,
    frame_buf: Vec<Vec<Color>>,
    frame: u32,
    live: Vec<u32>,
}

/// What a [`Screen`] holds: the grid's size, the upscaling factor, the id of the
/// image last sent, the buffer's rows, top row first, and the images still on
/// the terminal.
pub struct ScreenView {
    pub width: nat,
    pub height: nat,
    pub scale: nat,
    pub frame: u32,
    pub cells: Seq<Seq<Color>>,
    /// The ids of the images sent and not yet deleted, oldest first.
    pub live: Seq<u32>,
}

impl ScreenView {
    pub open spec fn wf(self) -> bool {
        &&& self.cells.len() == self.height * self.scale
        &&& forall|r: int|
            0 <= r < self.cells.len() ==> #[trigger] self.cells[r].len() == self.width * self.scale
        &&& self.width * self.scale <= usize::MAX
        &&& self.height * self.scale <= usize::MAX
        &&& self.frame >= 1
    }
}

/// `rows` rows of `cols` transparent cells.
pub open spec fn blank(cols: nat, rows: nat) -> Seq<Seq<Color>> {
    Seq::new(rows, |r: int| Seq::new(cols, |c: int| Color::transparent()))
}

/// The color of grid pixel `(x, y)` after the first `n` triangles of a mesh are
/// drawn over `base`, later triangles over earlier ones.
pub open spec fn painted(
    points: Seq<ScreenPoint>,
    colors: Seq<Color>,
    n: nat,
    width: int,
    height: int,
    x: int,
    y: int,
    base: Color,
) -> Color
    decreases n,
{
    if n == 0 {
        base
    } else {
        let i = n - 1;
        if paints(points[3 * i], points[3 * i + 1], points[3 * i + 2], width, height, x, y) {
            colors[i]
        } else {
            painted(points, colors, (n - 1) as nat, width, height, x, y, base)
        }
    }
}

/// Triangle `i` of a mesh paints grid pixel `(x, y)`.
pub open spec fn triangle_paints(
    points: Seq<ScreenPoint>,
    i: int,
    width: int,
    height: int,
    x: int,
    y: int,
) -> bool {
    paints(points[3 * i], points[3 * i + 1], points[3 * i + 2], width, height, x, y)
}

/// A pixel outside the clamped box of every triangle keeps its color: drawing
/// a mesh colors nothing outside the union of its triangles' boxes.
pub proof fn lemma_painted_outside_boxes(
    points: Seq<ScreenPoint>,
    colors: Seq<Color>,
    n: nat,
    width: int,
    height: int,
    x: int,
    y: int,
    base: Color,
)
    requires
        forall|i: int| 0 <= i < n ==> !#[trigger] in_box(
            points[3 * i],
            points[3 * i + 1],
            points[3 * i + 2],
            width,
            height,
            x,
            y,
        ),
    ensures
        painted(points, colors, n, width, height, x, y, base) == base,
    decreases n,
{
    if n > 0 {
        assert(!in_box(
            points[3 * (n - 1)],
            points[3 * (n - 1) + 1],
            points[3 * (n - 1) + 2],
            width,
            height,
            x,
            y,
        ));
        lemma_painted_outside_boxes(points, colors, (n - 1) as nat, width, height, x, y, base);
    }
}

/// A pixel that some triangle paints ends up in the color of a triangle that
/// paints it, the last one: with no transparent colors, every painted pixel is
/// colored.
pub proof fn lemma_painted_inside_a_triangle(
    points: Seq<ScreenPoint>,
    colors: Seq<Color>,
    n: nat,
    width: int,
    height: int,
    x: int,
    y: int,
    base: Color,
    i: int,
)
    requires
        0 <= i < n,
        triangle_paints(points, i, width, height, x, y),
    ensures
        exists|j: int|
            i <= j < n && #[trigger] triangle_paints(points, j, width, height, x, y) && painted(
                points,
                colors,
                n,
                width,
                height,
                x,
                y,
                base,
            ) == colors[j],
    decreases n,
{
    let last = n - 1;
    if triangle_paints(points, last, width, height, x, y) {
        assert(painted(points, colors, n, width, height, x, y, base) == colors[last]);
    } else {
        lemma_painted_inside_a_triangle(points, colors, (n - 1) as nat, width, height, x, y, base, i);
    }
}

/// Buffer cell `(r, c)` lies in the `scale` x `scale` block of grid pixel `(x, y)`.
pub open spec fn in_block(r: int, c: int, x: int, y: int, scale: int) -> bool {
    x * scale <= c < x * scale + scale && y * scale <= r < y * scale + scale
}

/// A cell belongs to the block of the pixel found by dividing by the scale.
proof fn lemma_block_index(c: int, s: int, x: int)
    requires
        s > 0,
        c >= 0,
        x >= 0,
    ensures
        (x * s <= c < x * s + s) <==> c / s == x,
{
    lemma_fundamental_div_mod(c, s);
    let q = c / s;
    let m = c % s;
    assert(0 <= m < s);
    if x * s <= c < x * s + s {
        assert(q == x) by (nonlinear_arith)
            requires
                s > 0,
                c == s * q + m,
                0 <= m < s,
                x * s <= c,
                c < x * s + s,
        ;
    }
    if q == x {
        assert(x * s <= c < x * s + s) by (nonlinear_arith)
            requires
                c == s * q + m,
                0 <= m < s,
                q == x,
        ;
    }
}

/// Writes `color` into every cell of the `scale` x `scale` block that stands for
/// grid pixel `point`, leaving all other cells as they were.
pub fn render_scaled(
    frame_buf: &mut Vec<Vec<Color>>,
    point: (usize, usize),
    scale: usize,
    color: Color,
)
    requires
        (point.1 + 1) * scale <= old(frame_buf)@.len(),
        forall|r: int|
            0 <= r < old(frame_buf)@.len() ==> (point.0 + 1) * scale <= #[trigger] old(frame_buf)@[r]@.len(),
    ensures
        final(frame_buf)@.len() == old(frame_buf)@.len(),
        forall|r: int|
            0 <= r < old(frame_buf)@.len() ==> #[trigger] final(frame_buf)@[r]@.len() == old(frame_buf)@[r]@.len(),
        forall|r: int, c: int|
            0 <= r < old(frame_buf)@.len() && 0 <= c < old(frame_buf)@[r]@.len() ==> #[trigger] final(frame_buf)@[r]@[c] == if in_block(r, c, point.0 as int, point.1 as int, scale as int) {
                color
            } else {
                old(frame_buf)@[r]@[c]
            },
{
    let (x, y) = point;
    assert(x * scale + scale == (x + 1) * scale) by (nonlinear_arith);
    assert(y * scale + scale == (y + 1) * scale) by (nonlinear_arith);
    if scale > 0 {
        assert(old(frame_buf)@[0]@.len() >= (x + 1) * scale);
        assert(old(frame_buf)@[0].len() == old(frame_buf)@[0]@.len());
    } else {
        assert(x * scale == 0 && y * scale == 0) by (nonlinear_arith)
            requires
                scale == 0,
        ;
    }
    assert(x * scale <= (x + 1) * scale);
    assert(y * scale <= (y + 1) * scale);
    assert(old(frame_buf).len() == old(frame_buf)@.len());
    let x0 = x * scale;
    let y0 = y * scale;
    let mut dy: usize = 0;
    while dy < scale
        invariant
            x0 == x * scale,
            y0 == y * scale,
            x0 + scale <= (x + 1) * scale,
            y0 + scale <= (y + 1) * scale,
            0 <= dy <= scale,
            (y + 1) * scale <= old(frame_buf)@.len(),
            old(frame_buf)@.len() <= usize::MAX,
            forall|r: int|
                0 <= r < old(frame_buf)@.len() ==> (x + 1) * scale <= #[trigger] old(frame_buf)@[r]@.len(),
            frame_buf@.len() == old(frame_buf)@.len(),
            forall|r: int|
                0 <= r < old(frame_buf)@.len() ==> #[trigger] frame_buf@[r]@.len() == old(frame_buf)@[r]@.len(),
            forall|r: int, c: int|
                0 <= r < old(frame_buf)@.len() && 0 <= c < old(frame_buf)@[r]@.len()
                    ==> #[trigger] frame_buf@[r]@[c] == if in_block(
                    r,
                    c,
                    x as int,
                    y as int,
                    scale as int,
                ) && r < y0 + dy {
                    color
                } else {
                    old(frame_buf)@[r]@[c]
                },
        decreases scale - dy,
    {
        let row = y0 + dy;
        assert(old(frame_buf)@[row as int]@.len() >= (x + 1) * scale);
        assert(frame_buf@[row as int]@.len() == old(frame_buf)@[row as int]@.len());
        let mut dx: usize = 0;
        while dx < scale
            invariant
                x0 == x * scale,
                y0 == y * scale,
                x0 + scale <= (x + 1) * scale,
                0 <= dy < scale,
                row == y0 + dy,
                row < old(frame_buf)@.len(),
                0 <= dx <= scale,
                forall|r: int|
                    0 <= r < old(frame_buf)@.len() ==> (x + 1) * scale <= #[trigger] old(frame_buf)@[r]@.len(),
                frame_buf@.len() == old(frame_buf)@.len(),
                forall|r: int|
                    0 <= r < old(frame_buf)@.len() ==> #[trigger] frame_buf@[r]@.len() == old(frame_buf)@[r]@.len(),
                forall|r: int, c: int|
                    0 <= r < old(frame_buf)@.len() && 0 <= c < old(frame_buf)@[r]@.len()
                        ==> #[trigger] frame_buf@[r]@[c] == if in_block(
                        r,
                        c,
                        x as int,
                        y as int,
                        scale as int,
                    ) && (r < row || (r == row && c < x0 + dx)) {
                        color
                    } else {
                        old(frame_buf)@[r]@[c]
                    },
            decreases scale - dx,
        {
            assert(frame_buf@[row as int].len() == frame_buf@[row as int]@.len());
            frame_buf[row][x0 + dx] = color;
            dx = dx + 1;
        }
        dy = dy + 1;
    }
}

/// The cells of `before` with the triangle's pixels on rows above `y`, and on
/// row `y` left of `x`, set to `color`.
pub open spec fn filled_up_to(
    cells: Seq<Seq<Color>>,
    before: Seq<Seq<Color>>,
    a: ScreenPoint,
    b: ScreenPoint,
    c: ScreenPoint,
    width: int,
    height: int,
    scale: int,
    color: Color,
    y: int,
    x: int,
) -> bool {
    &&& cells.len() == before.len()
    &&& forall|r: int| 0 <= r < before.len() ==> #[trigger] cells[r].len() == before[r].len()
    &&& forall|r: int, k: int|
        0 <= r < before.len() && 0 <= k < before[r].len() ==> #[trigger] cells[r][k] == if paints(
            a,
            b,
            c,
            width,
            height,
            k / scale,
            r / scale,
        ) && (r / scale < y || (r / scale == y && k / scale < x)) {
            color
        } else {
            before[r][k]
        }
}

/// The rows of a buffer, each as its sequence of colors.
pub open spec fn rows_of(buf: Seq<Vec<Color>>) -> Seq<Seq<Color>> {
    Seq::new(buf.len(), |r: int| buf[r]@)
}

/// Draws one triangle: every pixel of its clamped bounding box whose sample
/// passes the inside test gets `color` in all the cells of its block.
///
/// The edge functions are evaluated once, at the box's top-left pixel, and
/// then advanced by their constant per-pixel deltas.
fn fill_triangle(
    frame_buf: &mut Vec<Vec<Color>>,
    a: ScreenPoint,
    b: ScreenPoint,
    c: ScreenPoint,
    color: Color,
    width: usize,
    height: usize,
    scale: usize,
)
    requires
        width >= 1,
        height >= 1,
        scale >= 1,
        old(frame_buf)@.len() == height * scale,
        forall|r: int|
            0 <= r < old(frame_buf)@.len() ==> #[trigger] old(frame_buf)@[r]@.len() == width
                * scale,
    ensures
        filled_up_to(
            rows_of(final(frame_buf)@),
            rows_of(old(frame_buf)@),
            a,
            b,
            c,
            width as int,
            height as int,
            scale as int,
            color,
            height as int,
            0,
        ),
{
    let ghost before = rows_of(old(frame_buf)@);
    let ghost (w, h, s) = (width as int, height as int, scale as int);
    let (x0, y0, x1, y1) = pixel_box(a, b, c, width, height);
    let unit = SUBPIXEL as i128;
    let step_x_ab = unit * (a.y as i128 - b.y as i128);
    let step_x_bc = unit * (b.y as i128 - c.y as i128);
    let step_x_ca = unit * (c.y as i128 - a.y as i128);
    let step_y_ab = unit * (b.x as i128 - a.x as i128);
    let step_y_bc = unit * (c.x as i128 - b.x as i128);
    let step_y_ca = unit * (a.x as i128 - c.x as i128);
    let sx0 = x0 as i128 * unit;
    let sy0 = y0 as i128 * unit;
    let mut row_ab = edge_at(a, b, sx0, sy0);
    let mut row_bc = edge_at(b, c, sx0, sy0);
    let mut row_ca = edge_at(c, a, sx0, sy0);
    let mut y = y0;
    while y <= y1
        invariant
            x0 <= x1 < width,
            y0 <= y1 < height,
            x1 <= 0x80_0000,
            y1 <= 0x80_0000,
            y0 <= y <= y1 + 1,
            x0 == bounding_box(a, b, c, w, h).0,
            y0 == bounding_box(a, b, c, w, h).1,
            x1 == bounding_box(a, b, c, w, h).2,
            y1 == bounding_box(a, b, c, w, h).3,
            w == width,
            h == height,
            s == scale,
            scale >= 1,
            unit == SUBPIXEL,
            step_x_ab == edge_step_x(a, b),
            step_x_bc == edge_step_x(b, c),
            step_x_ca == edge_step_x(c, a),
            step_y_ab == edge_step_y(a, b),
            step_y_bc == edge_step_y(b, c),
            step_y_ca == edge_step_y(c, a),
            sx0 == x0 * SUBPIXEL,
            row_ab == edge(a, b, x0 * SUBPIXEL, y * SUBPIXEL),
            row_bc == edge(b, c, x0 * SUBPIXEL, y * SUBPIXEL),
            row_ca == edge(c, a, x0 * SUBPIXEL, y * SUBPIXEL),
            before.len() == height * scale,
            forall|r: int| 0 <= r < before.len() ==> #[trigger] before[r].len() == width * scale,
            filled_up_to(rows_of(frame_buf@), before, a, b, c, w, h, s, color, y as int, 0),
        decreases y1 + 1 - y,
    {
        let mut w_ab = row_ab;
        let mut w_bc = row_bc;
        let mut w_ca = row_ca;
        let mut x = x0;
        while x <= x1
            invariant
                x0 <= x1 < width,
                y0 <= y <= y1 < height,
                x1 <= 0x80_0000,
                y1 <= 0x80_0000,
                x0 <= x <= x1 + 1,
                x0 == bounding_box(a, b, c, w, h).0,
                y0 == bounding_box(a, b, c, w, h).1,
                x1 == bounding_box(a, b, c, w, h).2,
                y1 == bounding_box(a, b, c, w, h).3,
                w == width,
                h == height,
                s == scale,
                scale >= 1,
                step_x_ab == edge_step_x(a, b),
                step_x_bc == edge_step_x(b, c),
                step_x_ca == edge_step_x(c, a),
                w_ab == edge(a, b, x * SUBPIXEL, y * SUBPIXEL),
                w_bc == edge(b, c, x * SUBPIXEL, y * SUBPIXEL),
                w_ca == edge(c, a, x * SUBPIXEL, y * SUBPIXEL),
                before.len() == height * scale,
                forall|r: int| 0 <= r < before.len() ==> #[trigger] before[r].len() == width * scale,
                filled_up_to(rows_of(frame_buf@), before, a, b, c, w, h, s, color, y as int, x as int),
            decreases x1 + 1 - x,
        {
            let ghost cur = rows_of(frame_buf@);
            if w_ab >= 0 && w_bc >= 0 && w_ca >= 0 {
                proof {
                    lemma_mul_inequality(y + 1, h, s);
                    lemma_mul_inequality(x + 1, w, s);
                    assert forall|r: int| 0 <= r < frame_buf@.len() implies (x + 1) * scale
                        <= #[trigger] frame_buf@[r]@.len() by {
                        assert(cur[r] == frame_buf@[r]@);
                        assert(cur[r].len() == before[r].len());
                    }
                }
                render_scaled(frame_buf, (x, y), scale, color);
            }
            proof {
                let now = rows_of(frame_buf@);
                assert forall|r: int| 0 <= r < before.len() implies #[trigger] now[r].len()
                    == before[r].len() by {
                    assert(now[r] == frame_buf@[r]@);
                    assert(cur[r].len() == before[r].len());
                }
                assert forall|r: int, k: int| 0 <= r < before.len() && 0 <= k < before[r].len()
                    implies #[trigger] now[r][k] == if paints(a, b, c, w, h, k / s, r / s) && (r / s
                    < y || (r / s == y && k / s < x + 1)) {
                    color
                } else {
                    before[r][k]
                } by {
                    lemma_block_index(k, s, x as int);
                    lemma_block_index(r, s, y as int);
                    assert(now[r] == frame_buf@[r]@);
                    assert(cur[r].len() == before[r].len());
                    assert(cur[r][k] == if paints(a, b, c, w, h, k / s, r / s) && (r / s < y || (r
                        / s == y && k / s < x)) {
                        color
                    } else {
                        before[r][k]
                    });
                }
                assert(filled_up_to(now, before, a, b, c, w, h, s, color, y as int, x + 1));
            }
            proof {
                lemma_step_right(a, b, x as int, y as int);
                lemma_step_right(b, c, x as int, y as int);
                lemma_step_right(c, a, x as int, y as int);
                lemma_edge_bound(a, b, (x + 1) * SUBPIXEL, y * SUBPIXEL);
                lemma_edge_bound(b, c, (x + 1) * SUBPIXEL, y * SUBPIXEL);
                lemma_edge_bound(c, a, (x + 1) * SUBPIXEL, y * SUBPIXEL);
            }
            w_ab = w_ab + step_x_ab;
            w_bc = w_bc + step_x_bc;
            w_ca = w_ca + step_x_ca;
            x = x + 1;
        }
        proof {
            lemma_step_down(a, b, x0 as int, y as int);
            lemma_step_down(b, c, x0 as int, y as int);
            lemma_step_down(c, a, x0 as int, y as int);
            lemma_edge_bound(a, b, x0 * SUBPIXEL, (y + 1) * SUBPIXEL);
            lemma_edge_bound(b, c, x0 * SUBPIXEL, (y + 1) * SUBPIXEL);
            lemma_edge_bound(c, a, x0 * SUBPIXEL, (y + 1) * SUBPIXEL);
        }
        row_ab = row_ab + step_y_ab;
        row_bc = row_bc + step_y_bc;
        row_ca = row_ca + step_y_ca;
        y = y + 1;
    }
}

/// A `cols` x `rows` buffer of transparent cells.
fn blank_buffer(cols: usize, rows: usize) -> (buf: Vec<Vec<Color>>)
    ensures
        rows_of(buf@) == blank(cols as nat, rows as nat),
{
    let mut buf: Vec<Vec<Color>> = Vec::new();
    let mut r: usize = 0;
    while r < rows
        invariant
            r <= rows,
            buf@.len() == r,
            forall|i: int| 0 <= i < r ==> #[trigger] buf@[i]@ == Seq::new(cols as nat, |c: int| Color::transparent()),
        decreases rows - r,
    {
        let mut row: Vec<Color> = Vec::new();
        let mut c: usize = 0;
        while c < cols
            invariant
                c <= cols,
                row@ == Seq::new(c as nat, |j: int| Color::transparent()),
            decreases cols - c,
        {
            row.push(Color::default());
            c = c + 1;
            assert(row@ =~= Seq::new(c as nat, |j: int| Color::transparent()));
        }
        buf.push(row);
        r = r + 1;
    }
    assert(rows_of(buf@) =~= blank(cols as nat, rows as nat));
    buf
}

impl View for Screen {
    type V = ScreenView;

    closed spec fn view(&self) -> ScreenView {
        ScreenView {
            width: self.width as nat,
            height: self.height as nat,
            scale: self.scale as nat,
            frame: self.frame,
            cells: rows_of(self.frame_buf@),
            live: self.live@,
        }
    }
}

impl Screen {
    /// A `width` x `height` screen at scale 1 with a transparent buffer; no image
    /// has been sent yet.
    pub fn new(width: usize, height: usize) -> (s: Screen)
        ensures
            s@ == (ScreenView {
                width: width as nat,
                height: height as nat,
                scale: 1,
                frame: 1,
                cells: blank(width as nat, height as nat),
                live: Seq::empty(),
            }),
            s@.wf(),
    {
        let s = Screen { width, height, scale: 1, frame_buf: blank_buffer(width, height), frame: 1, live: Vec::new() };
        assert(width * 1 == width && height * 1 == height);
        s
    }

    pub fn width(&self) -> (w: usize)
        ensures
            w == self@.width,
    {
        self.width
    }

    pub fn height(&self) -> (h: usize)
        ensures
            h == self@.height,
    {
        self.height
    }

    pub fn scale_factor(&self) -> (s: usize)
        ensures
            s == self@.scale,
    {
        self.scale
    }

    /// Width and height of the buffer, that is of the images sent.
    pub fn buffer_size(&self) -> (r: (usize, usize))
        requires
            self@.wf(),
        ensures
            r.0 == self@.width * self@.scale,
            r.1 == self@.height * self@.scale,
    {
        (self.width * self.scale, self.height * self.scale)
    }

    /// The color of buffer cell `(row, col)`, rows counted from the top.
    pub fn cell(&self, row: usize, col: usize) -> (c: Color)
        requires
            self@.wf(),
            row < self@.cells.len(),
            col < self@.cells[row as int].len(),
        ensures
            c == self@.cells[row as int][col as int],
    {
        self.frame_buf[row][col]
    }

    /// Makes every grid pixel `factor` x `factor` cells and reallocates the
    /// buffer at the new size, transparent.
    pub fn scale(&mut self, factor: usize)
        requires
            old(self)@.wf(),
            old(self)@.width * factor <= usize::MAX,
            old(self)@.height * factor <= usize::MAX,
        ensures
            final(self)@ == (ScreenView {
                scale: factor as nat,
                cells: blank(old(self)@.width * factor as nat, old(self)@.height * factor as nat),
                ..old(self)@
            }),
            final(self)@.wf(),
    {
        self.scale = factor;
        self.frame_buf = blank_buffer(self.width * factor, self.height * factor);
    }

    /// Sets every cell of the buffer back to transparent.
    pub fn clear_frame_buf(&mut self)
        requires
            old(self)@.wf(),
        ensures
            final(self)@ == (ScreenView {
                cells: blank(
                    old(self)@.width * old(self)@.scale,
                    old(self)@.height * old(self)@.scale,
                ),
                ..old(self)@
            }),
            final(self)@.wf(),
    {
        self.frame_buf = blank_buffer(self.width * self.scale, self.height * self.scale);
    }

    /// Draws the triangles `points[3i], points[3i + 1], points[3i + 2]` in order,
    /// triangle `i` in `face_colors[i]`, each over the ones before it.
    pub fn render(&mut self, points: &Vec<ScreenPoint>, face_colors: &Vec<Color>)
        requires
            old(self)@.wf(),
            points@.len() == 3 * face_colors@.len(),
        ensures
            final(self)@.wf(),
            final(self)@.width == old(self)@.width,
            final(self)@.height == old(self)@.height,
            final(self)@.scale == old(self)@.scale,
            final(self)@.frame == old(self)@.frame,
            final(self)@.live == old(self)@.live,
            final(self)@.cells.len() == old(self)@.cells.len(),
            forall|r: int|
                0 <= r < old(self)@.cells.len() ==> #[trigger] final(self)@.cells[r].len() == old(
                    self,
                )@.cells[r].len(),
            forall|r: int, k: int|
                0 <= r < old(self)@.cells.len() && 0 <= k < old(self)@.cells[r].len()
                    ==> #[trigger] final(self)@.cells[r][k] == painted(
                    points@,
                    face_colors@,
                    face_colors@.len(),
                    old(self)@.width as int,
                    old(self)@.height as int,
                    k / (old(self)@.scale as int),
                    r / (old(self)@.scale as int),
                    old(self)@.cells[r][k],
                ),
    {
        if self.width == 0 || self.height == 0 || self.scale == 0 {
            proof {
                assert(self@.cells.len() == 0 || self@.cells[0].len() == 0) by {
                    if self.width == 0 {
                        if self@.cells.len() > 0 {
                            assert(self@.cells[0].len() == 0 * self.scale);
                        }
                    } else if self.height == 0 {
                        assert(self@.cells.len() == 0 * self.scale);
                    } else {
                        assert(self@.cells.len() == self.height * 0);
                    }
                }
            }
            return;
        }
        let ghost before = self@.cells;
        let ghost (w, h, s) = (self.width as int, self.height as int, self.scale as int);
        let n = face_colors.len();
        let m = points.len();
        let mut i: usize = 0;
        while i < n
            invariant
                0 <= i <= n,
                n == face_colors@.len(),
                points@.len() == 3 * n,
                m == points@.len(),
                self.width == w && self.height == h && self.scale == s,
                w >= 1 && h >= 1 && s >= 1,
                self.frame == old(self).frame,
                self.live == old(self).live,
                self@.wf(),
                before.len() == h * s,
                forall|r: int| 0 <= r < before.len() ==> #[trigger] before[r].len() == w * s,
                self@.cells.len() == before.len(),
                forall|r: int| 0 <= r < before.len() ==> #[trigger] self@.cells[r].len() == before[r].len(),
                forall|r: int, k: int|
                    0 <= r < before.len() && 0 <= k < before[r].len() ==> #[trigger] self@.cells[r][k]
                        == painted(points@, face_colors@, i as nat, w, h, k / s, r / s, before[r][k]),
            decreases n - i,
        {
            let ghost cur = self@.cells;
            proof {
                assert forall|r: int| 0 <= r < self.frame_buf@.len() implies #[trigger] self.frame_buf@[r]@.len()
                    == self.width * self.scale by {
                    assert(self@.cells[r] == self.frame_buf@[r]@);
                }
            }
            fill_triangle(
                &mut self.frame_buf,
                points[3 * i],
                points[3 * i + 1],
                points[3 * i + 2],
                face_colors[i],
                self.width,
                self.height,
                self.scale,
            );
            i = i + 1;
            proof {
                assert forall|r: int, k: int|
                    0 <= r < before.len() && 0 <= k < before[r].len() implies #[trigger] self@.cells[r][k]
                        == painted(points@, face_colors@, i as nat, w, h, k / s, r / s, before[r][k]) by {
                    assert(cur[r].len() == before[r].len());
                }
                assert forall|r: int| 0 <= r < self@.cells.len() implies #[trigger] self@.cells[r].len()
                    == self@.width * self@.scale by {
                    assert(cur[r].len() == before[r].len());
                }
            }
        }
    }
}

/// The id of the image after `frame`: one more, wrapping from the largest id
/// back to 2, so that 0 and 1 are never sent.
pub open spec fn next_frame(frame: u32) -> u32 {
    if frame == u32::MAX {
        2
    } else {
        (frame + 1) as u32
    }
}

pub fn next_frame_id(frame: u32) -> (next: u32)
    ensures
        next == next_frame(frame),
{
    if frame == u32::MAX {
        2
    } else {
        frame + 1
    }
}

impl Screen {
    /// Deletes every image still on the terminal but the current one: all
    /// those with an id up to `frame - 1`, and any left from before the ids
    /// wrapped. Returns the escape-coded commands, with every answer
    /// suppressed, oldest image first.
    pub fn clear(&mut self) -> (bytes: Vec<u8>)
        ensures
            bytes@ == deletions(old(self)@.live, old(self)@.frame),
            final(self)@ == (ScreenView { live: kept(old(self)@.live, old(self)@.frame), ..old(self)@ }),
            forall|j: int|
                0 <= j < final(self)@.live.len() ==> #[trigger] final(self)@.live[j]
                    == old(self)@.frame,
    {
        let (remaining, bytes) = delete_stale(&self.live, self.frame);
        self.live = remaining;
        bytes
    }

    /// The escape-coded command, with every answer suppressed, that deletes
    /// every image; sent before the
    /// session ends.
    pub fn delete_all_images(&mut self) -> (bytes: Vec<u8>)
        ensures
            bytes@ == control_wire(ControlAction::DeleteAll, 0, Quietness::SuppressAll),
            final(self)@ == (ScreenView { live: Seq::empty(), ..old(self)@ }),
    {
        self.live = Vec::new();
        encode(
            &Command::Control(
                ControlCommand {
                    action: ControlAction::DeleteAll,
                    id: 0,
                    quietness: Quietness::SuppressAll,
                },
            ),
        )
    }

    /// The payload of the buffer as it stands.
    pub fn payload(&self) -> (payload: Vec<u8>)
        requires
            self@.wf(),
            4 * (self@.height * self@.scale * (self@.width * self@.scale)) <= usize::MAX,
        ensures
            is_payload_of(payload@, self@.cells, (self@.width * self@.scale) as int),
    {
        let ghost cells = self@.cells;
        let ghost w = (self@.width * self@.scale) as int;
        proof {
            if cells.len() > 0 {
                assert(grid_width(cells) == w);
            } else {
                assert(grid_width(cells) == 0);
            }
            assert(rectangular(cells, grid_width(cells)));
            assert(self.frame_buf@.len() == cells.len());
        }
        let payload = buf_to_payload(&self.frame_buf);
        proof {
            if cells.len() == 0 {
                assert(0 * w == 0);
                assert(payload@.len() == 4 * (cells.len() * w));
            }
        }
        payload
    }

    /// Appends to `out`, with every answer suppressed, the current frame as a
    /// new image with the next id, then the commands that delete every other
    /// image still on the terminal (see [`Screen::clear`]); clears the buffer.
    pub fn draw_to(&mut self, out: &mut Vec<u8>)
        requires
            old(self)@.wf(),
            old(self)@.width * old(self)@.scale <= u32::MAX,
            old(self)@.height * old(self)@.scale <= u32::MAX,
            4 * (old(self)@.height * old(self)@.scale * (old(self)@.width * old(self)@.scale))
                <= usize::MAX,
        ensures
            final(self)@ == (ScreenView {
                frame: next_frame(old(self)@.frame),
                cells: blank(
                    old(self)@.width * old(self)@.scale,
                    old(self)@.height * old(self)@.scale,
                ),
                live: kept(old(self)@.live, next_frame(old(self)@.frame)).push(
                    next_frame(old(self)@.frame),
                ),
                ..old(self)@
            }),
            final(self)@.wf(),
            forall|j: int|
                0 <= j < final(self)@.live.len() ==> #[trigger] final(self)@.live[j]
                    == next_frame(old(self)@.frame),
            exists|p: Seq<u8>|
                #[trigger] is_payload_of(p, old(self)@.cells, (old(self)@.width * old(self)@.scale) as int)
                    && final(out)@ == old(out)@ + chunked_wire(
                    ImageAction::TransmitAndDisplay {
                        width: (old(self)@.width * old(self)@.scale) as u32,
                        height: (old(self)@.height * old(self)@.scale) as u32,
                    },
                    next_frame(old(self)@.frame),
                    Quietness::SuppressAll,
                    p,
                ) + deletions(old(self)@.live, next_frame(old(self)@.frame)),
    {
        let payload = self.payload();
        let ghost p = payload@;
        let id = next_frame_id(self.frame);
        self.frame = id;
        let (width, height) = self.buffer_size();
        let action = ImageAction::TransmitAndDisplay { width: width as u32, height: height as u32 };
        let quietness = Quietness::SuppressAll;
        let mut frame = encode(&Command::Image(ImageCommand { action, id, quietness, payload }));
        out.append(&mut frame);
        self.clear_frame_buf();
        let ghost before = self.live@;
        self.live.push(id);
        assert(self.live@.drop_last() =~= before);
        let mut delete = self.clear();
        out.append(&mut delete);
        assert(out@ =~= old(out)@ + chunked_wire(action, id, quietness, p) + deletions(before, id));
    }
}

/// The commands that delete, in order, every image of `ids` but `keep`.
pub open spec fn deletions(ids: Seq<u32>, keep: u32) -> Seq<u8>
    decreases ids.len(),
{
    if ids.len() == 0 {
        Seq::empty()
    } else {
        let rest = deletions(ids.drop_last(), keep);
        if ids.last() == keep {
            rest
        } else {
            rest + control_wire(ControlAction::DeleteImage, ids.last(), Quietness::SuppressAll)
        }
    }
}

/// The ids of `ids` equal to `keep`.
pub open spec fn kept(ids: Seq<u32>, keep: u32) -> Seq<u32>
    decreases ids.len(),
{
    if ids.len() == 0 {
        Seq::empty()
    } else {
        let rest = kept(ids.drop_last(), keep);
        if ids.last() == keep {
            rest.push(keep)
        } else {
            rest
        }
    }
}

/// Splits `ids` into those equal to `keep` and the commands that delete the rest.
fn delete_stale(ids: &Vec<u32>, keep: u32) -> (r: (Vec<u32>, Vec<u8>))
    ensures
        r.0@ == kept(ids@, keep),
        r.1@ == deletions(ids@, keep),
        forall|j: int| 0 <= j < r.0@.len() ==> #[trigger] r.0@[j] == keep,
{
    let mut remaining: Vec<u32> = Vec::new();
    let mut bytes: Vec<u8> = Vec::new();
    let mut i: usize = 0;
    while i < ids.len()
        invariant
            0 <= i <= ids@.len(),
            remaining@ == kept(ids@.subrange(0, i as int), keep),
            bytes@ == deletions(ids@.subrange(0, i as int), keep),
            forall|j: int| 0 <= j < remaining@.len() ==> #[trigger] remaining@[j] == keep,
        decreases ids@.len() - i,
    {
        let id = ids[i];
        assert(ids@.subrange(0, i + 1).drop_last() =~= ids@.subrange(0, i as int));
        if id == keep {
            remaining.push(id);
        } else {
            let mut delete = encode(
                &Command::Control(
                    ControlCommand {
                        action: ControlAction::DeleteImage,
                        id,
                        quietness: Quietness::SuppressAll,
                    },
                ),
            );
            bytes.append(&mut delete);
        }
        i = i + 1;
    }
    assert(ids@.subrange(0, ids@.len() as int) =~= ids@);
    (remaining, bytes)
}

} // verus!

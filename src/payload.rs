//! The pixel payload of an image: rows bottom to top, each cell as its red,
//! green, blue and alpha bytes.
use vstd::prelude::*;
use crate::color::Color;
use crate::screen::rows_of;

verus! {

/// Where byte `channel` of cell `col` of payload row `row` stands.
pub open spec fn byte_index(width: int, row: int, col: int, channel: int) -> int {
    4 * (row * width + col) + channel
}

/// Byte `k` of a color: red, green, blue, then alpha.
pub open spec fn channel(c: Color, k: int) -> u8 {
    if k == 0 {
        c.red
    } else if k == 1 {
        c.green
    } else if k == 2 {
        c.blue
    } else {
        c.alpha
    }
}

/// The length of the first row, taken as the width of the grid.
pub open spec fn grid_width(cells: Seq<Seq<Color>>) -> int {
    if cells.len() == 0 {
        0
    } else {
        cells[0].len() as int
    }
}

/// Every row is `width` cells long.
pub open spec fn rectangular(cells: Seq<Seq<Color>>, width: int) -> bool {
    forall|r: int| 0 <= r < cells.len() ==> #[trigger] cells[r].len() == width
}

/// `p` is the payload of `cells`: payload row `i` is grid row `len - 1 - i`, and
/// every cell of it gives four bytes in channel order. The indices of the
/// quantifier cover `0 .. p.len()` once each.
pub open spec fn is_payload_of(p: Seq<u8>, cells: Seq<Seq<Color>>, width: int) -> bool {
    &&& p.len() == 4 * (cells.len() * width)
    &&& forall|i: int, c: int, k: int|
        0 <= i < cells.len() && 0 <= c < width && 0 <= k < 4 ==> p[#[trigger] byte_index(
            width,
            i,
            c,
            k,
        )] == channel(cells[cells.len() - 1 - i][c], k)
}

/// The grid that a `width` x `height` payload stands for, top row first.
pub open spec fn decoded(p: Seq<u8>, width: int, height: int) -> Seq<Seq<Color>> {
    Seq::new(
        height as nat,
        |r: int|
            Seq::new(
                width as nat,
                |c: int|
                    Color {
                        red: p[byte_index(width, height - 1 - r, c, 0)],
                        green: p[byte_index(width, height - 1 - r, c, 1)],
                        blue: p[byte_index(width, height - 1 - r, c, 2)],
                        alpha: p[byte_index(width, height - 1 - r, c, 3)],
                    },
            ),
    )
}

/// Cells earlier in row-major order have smaller payload indices.
proof fn lemma_index_order(width: int, i1: int, c1: int, i2: int, c2: int)
    requires
        0 <= c1 < width,
        0 <= c2,
        0 <= i1,
        i1 < i2 || (i1 == i2 && c1 < c2),
    ensures
        i1 * width + c1 < i2 * width + c2,
{
    if i1 < i2 {
        assert(i1 * width + width <= i2 * width) by (nonlinear_arith)
            requires
                i1 < i2,
                width > 0,
        ;
    }
}

/// Decoding a payload, undoing the row flip and the interleaving of channels,
/// gives back the grid it was made from.
pub proof fn lemma_payload_round_trip(cells: Seq<Seq<Color>>, width: int, p: Seq<u8>)
    requires
        width >= 0,
        rectangular(cells, width),
        is_payload_of(p, cells, width),
    ensures
        decoded(p, width, cells.len() as int) == cells,
{
    let h = cells.len() as int;
    let d = decoded(p, width, h);
    assert forall|r: int| 0 <= r < h implies #[trigger] d[r] == cells[r] by {
        assert forall|c: int| 0 <= c < width implies #[trigger] d[r][c] == cells[r][c] by {
            let i = h - 1 - r;
            assert(p[byte_index(width, i, c, 0)] == channel(cells[h - 1 - i][c], 0));
            assert(p[byte_index(width, i, c, 1)] == channel(cells[h - 1 - i][c], 1));
            assert(p[byte_index(width, i, c, 2)] == channel(cells[h - 1 - i][c], 2));
            assert(p[byte_index(width, i, c, 3)] == channel(cells[h - 1 - i][c], 3));
        }
        assert(d[r] =~= cells[r]);
    }
    assert(d =~= cells);
}

/// Serialises a frame buffer row by row from the bottom up, each cell as its
/// red, green, blue and alpha bytes.
pub fn buf_to_payload(frame_buf: &Vec<Vec<Color>>) -> (payload: Vec<u8>)
    requires
        rectangular(rows_of(frame_buf@), grid_width(rows_of(frame_buf@))),
        4 * (frame_buf@.len() * grid_width(rows_of(frame_buf@))) <= usize::MAX,
    ensures
        is_payload_of(payload@, rows_of(frame_buf@), grid_width(rows_of(frame_buf@))),
{
    let ghost cells = rows_of(frame_buf@);
    let height = frame_buf.len();
    let width: usize = if height == 0 {
        0
    } else {
        frame_buf[0].len()
    };
    let ghost w = width as int;
    assert(w == grid_width(cells));
    let mut payload: Vec<u8> = Vec::new();
    let mut i: usize = 0;
    while i < height
        invariant
            height == cells.len(),
            w == width,
            w == grid_width(cells),
            rectangular(cells, w),
            cells == rows_of(frame_buf@),
            4 * (height * w) <= usize::MAX,
            0 <= i <= height,
            payload@.len() == 4 * (i * w),
            forall|i2: int, c2: int, k: int|
                0 <= i2 < i && 0 <= c2 < w && 0 <= k < 4 ==> payload@[#[trigger] byte_index(
                    w,
                    i2,
                    c2,
                    k,
                )] == channel(cells[height - 1 - i2][c2], k),
        decreases height - i,
    {
        let row = &frame_buf[height - 1 - i];
        assert(row@ == cells[height - 1 - i]);
        let mut c: usize = 0;
        while c < width
            invariant
                height == cells.len(),
                w == width,
                rectangular(cells, w),
                row@ == cells[height - 1 - i],
                4 * (height * w) <= usize::MAX,
                0 <= i < height,
                0 <= c <= width,
                payload@.len() == 4 * (i * w + c),
                forall|i2: int, c2: int, k: int|
                    0 <= i2 <= i && 0 <= c2 < w && 0 <= k < 4 && (i2 < i || c2 < c)
                        ==> payload@[#[trigger] byte_index(w, i2, c2, k)] == channel(
                        cells[height - 1 - i2][c2],
                        k,
                    ),
            decreases width - c,
        {
            proof {
                assert(i * w + c < height * w) by (nonlinear_arith)
                    requires
                        i < height,
                        c < w,
                ;
            }
            let color = row[c];
            let ghost before = payload@;
            payload.push(color.red);
            payload.push(color.green);
            payload.push(color.blue);
            payload.push(color.alpha);
            proof {
                assert forall|i2: int, c2: int, k: int|
                    0 <= i2 <= i && 0 <= c2 < w && 0 <= k < 4 && (i2 < i || c2 < c + 1)
                        implies payload@[#[trigger] byte_index(w, i2, c2, k)] == channel(
                        cells[height - 1 - i2][c2],
                        k,
                    ) by {
                    if i2 < i || c2 < c {
                        lemma_index_order(w, i2, c2, i as int, c as int);
                        assert(payload@[byte_index(w, i2, c2, k)] == before[byte_index(w, i2, c2, k)]);
                    }
                }
            }
            c = c + 1;
        }
        proof {
            assert(i * w + w == (i + 1) * w) by (nonlinear_arith);
        }
        i = i + 1;
    }
    proof {
        assert(height * w == cells.len() * w);
    }
    payload
}

/// Reads a `width` x `height` payload back into rows of colors, top row first.
pub fn payload_to_buf(payload: &Vec<u8>, width: usize, height: usize) -> (buf: Vec<Vec<Color>>)
    requires
        payload@.len() == 4 * (width * height),
    ensures
        rows_of(buf@) == decoded(payload@, width as int, height as int),
{
    let n = payload.len();
    let mut buf: Vec<Vec<Color>> = Vec::new();
    let mut r: usize = 0;
    while r < height
        invariant
            n == payload@.len(),
            payload@.len() == 4 * (width * height),
            0 <= r <= height,
            buf@.len() == r,
            forall|j: int| 0 <= j < r ==> #[trigger] buf@[j]@ == decoded(payload@, width as int, height as int)[j],
        decreases height - r,
    {
        let i = height - 1 - r;
        let mut row: Vec<Color> = Vec::new();
        let mut c: usize = 0;
        while c < width
            invariant
                n == payload@.len(),
                payload@.len() == 4 * (width * height),
                0 <= r < height,
                i == height - 1 - r,
                0 <= c <= width,
                row@.len() == c,
                forall|j: int| 0 <= j < c ==> #[trigger] row@[j] == decoded(payload@, width as int, height as int)[r as int][j],
            decreases width - c,
        {
            proof {
                assert(i * width + c < width * height) by (nonlinear_arith)
                    requires
                        i < height,
                        c < width,
                ;
                assert(0 <= i * width) by (nonlinear_arith);
            }
            let at = 4 * (i * width + c);
            row.push(Color::new(payload[at], payload[at + 1], payload[at + 2], payload[at + 3]));
            c = c + 1;
        }
        assert(row@ =~= decoded(payload@, width as int, height as int)[r as int]);
        buf.push(row);
        r = r + 1;
    }
    assert(rows_of(buf@) =~= decoded(payload@, width as int, height as int));
    buf
}

} // verus!

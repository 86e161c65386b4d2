//! Textures as rows of RGBA pixels: cutting rectangles, quarter turns,
//! painting one texture onto another, and flattening to bytes.
use vstd::prelude::*;
use vstd::arithmetic::div_mod::lemma_fundamental_div_mod;

verus! {

/// The rows of a texture as sequences of pixels.
pub open spec fn rows_view(rows: Seq<Vec<[u8; 4]>>) -> Seq<Seq<[u8; 4]>> {
    Seq::new(rows.len(), |i: int| rows[i]@)
}

/// A texture: rows of pixels, top row first.
pub struct VecTexture {
    pub rows: Vec<Vec<[u8; 4]>>,
}

/// A copy of a rectangle cut from a texture.
pub struct TextureSlice {
    pub rows: Vec<Vec<[u8; 4]>>,
}

impl View for VecTexture {
    type V = Seq<Seq<[u8; 4]>>;

    open spec fn view(&self) -> Seq<Seq<[u8; 4]>> {
        rows_view(self.rows@)
    }
}

impl View for TextureSlice {
    type V = Seq<Seq<[u8; 4]>>;

    open spec fn view(&self) -> Seq<Seq<[u8; 4]>> {
        rows_view(self.rows@)
    }
}

/// The pixel of a blank texture.
pub open spec fn blank() -> [u8; 4] {
    [0u8, 0u8, 0u8, 0u8]
}

/// The `w` by `h` rectangle of `g` whose top left pixel is `(x0, y0)`.
pub open spec fn sub_rows(g: Seq<Seq<[u8; 4]>>, x0: int, y0: int, w: int, h: int) -> Seq<
    Seq<[u8; 4]>,
> {
    Seq::new(h as nat, |y: int| g[y0 + y].subrange(x0, x0 + w))
}

/// The rectangle lies within `g`.
pub open spec fn rect_within(g: Seq<Seq<[u8; 4]>>, x0: int, y0: int, w: int, h: int) -> bool {
    &&& 0 <= x0 && 0 <= y0 && 0 <= w && 0 <= h
    &&& y0 + h <= g.len()
    &&& forall|y: int| 0 <= y < h ==> x0 + w <= #[trigger] g[y0 + y].len()
}

/// No row of `g`, which has one at least, is longer than its first.
pub open spec fn rows_fit_first(g: Seq<Seq<[u8; 4]>>) -> bool {
    &&& g.len() > 0
    &&& forall|y: int| 0 <= y < g.len() ==> #[trigger] g[y].len() <= g[0].len()
}

/// `g` turned a quarter clockwise: as many rows as the first row of `g` has
/// pixels, each as long as `g` has rows; pixel `(x, y)` of `g` goes to
/// `(height - 1 - y, x)`. Places that a short row of `g` leaves empty are blank.
pub open spec fn rotated(g: Seq<Seq<[u8; 4]>>) -> Seq<Seq<[u8; 4]>> {
    let h = g.len() as int;
    Seq::new(
        g[0].len(),
        |i: int|
            Seq::new(
                h as nat,
                |j: int|
                    if i < g[h - 1 - j].len() {
                        g[h - 1 - j][i]
                    } else {
                        blank()
                    },
            ),
    )
}

/// `p` fits within `g` with its top left pixel at `(x0, y0)`.
pub open spec fn paint_fits(g: Seq<Seq<[u8; 4]>>, p: Seq<Seq<[u8; 4]>>, x0: int, y0: int) -> bool {
    &&& 0 <= x0 && 0 <= y0
    &&& y0 + p.len() <= g.len()
    &&& forall|y: int| 0 <= y < p.len() ==> x0 + p[y].len() <= #[trigger] g[y0 + y].len()
}

/// `g` with `p` painted over it, top left pixel at `(x0, y0)`.
pub open spec fn painted(g: Seq<Seq<[u8; 4]>>, p: Seq<Seq<[u8; 4]>>, x0: int, y0: int) -> Seq<
    Seq<[u8; 4]>,
> {
    Seq::new(
        g.len(),
        |r: int|
            Seq::new(
                g[r].len(),
                |c: int|
                    if y0 <= r < y0 + p.len() && x0 <= c < x0 + p[r - y0].len() {
                        p[r - y0][c - x0]
                    } else {
                        g[r][c]
                    },
            ),
    )
}

/// The four bytes of a pixel.
pub open spec fn pixel_bytes(p: [u8; 4]) -> Seq<u8> {
    seq![p[0], p[1], p[2], p[3]]
}

/// The bytes of a row, pixel after pixel.
pub open spec fn row_bytes(r: Seq<[u8; 4]>) -> Seq<u8>
    decreases r.len(),
{
    if r.len() == 0 {
        Seq::empty()
    } else {
        row_bytes(r.drop_last()) + pixel_bytes(r.last())
    }
}

/// The bytes of a texture, row after row.
pub open spec fn grid_bytes(g: Seq<Seq<[u8; 4]>>) -> Seq<u8>
    decreases g.len(),
{
    if g.len() == 0 {
        Seq::empty()
    } else {
        grid_bytes(g.drop_last()) + row_bytes(g.last())
    }
}

fn copy_rect(rows: &Vec<Vec<[u8; 4]>>, x0: usize, y0: usize, w: usize, h: usize) -> (r: Vec<
    Vec<[u8; 4]>,
>)
    requires
        rect_within(rows_view(rows@), x0 as int, y0 as int, w as int, h as int),
    ensures
        rows_view(r@) == sub_rows(rows_view(rows@), x0 as int, y0 as int, w as int, h as int),
{
    let ghost g = rows_view(rows@);
    let total: usize = rows.len();
    let mut out: Vec<Vec<[u8; 4]>> = Vec::new();
    let mut y: usize = 0;
    while y < h
        invariant
            g == rows_view(rows@),
            total == rows@.len(),
            rect_within(g, x0 as int, y0 as int, w as int, h as int),
            y <= h,
            out@.len() == y,
            forall|k: int| 0 <= k < y ==> #[trigger] out@[k]@ == g[y0 + k].subrange(x0 as int, x0 + w),
        decreases h - y,
    {
        assert(x0 + w <= g[y0 + y as int].len());
        let src: &Vec<[u8; 4]> = &rows[y0 + y];
        let width: usize = src.len();
        let mut row: Vec<[u8; 4]> = Vec::new();
        let mut x: usize = 0;
        while x < w
            invariant
                src@ == g[y0 + y as int],
                width == src@.len(),
                x0 + w <= src@.len(),
                x <= w,
                row@ == src@.subrange(x0 as int, x0 + x),
            decreases w - x,
        {
            row.push(src[x0 + x]);
            x = x + 1;
            assert(row@ =~= src@.subrange(x0 as int, x0 + x));
        }
        out.push(row);
        y = y + 1;
    }
    assert(rows_view(out@) =~= sub_rows(g, x0 as int, y0 as int, w as int, h as int));
    out
}

fn rotate_rows(rows: &Vec<Vec<[u8; 4]>>) -> (r: Vec<Vec<[u8; 4]>>)
    requires
        rows_fit_first(rows_view(rows@)),
    ensures
        rows_view(r@) == rotated(rows_view(rows@)),
{
    let ghost g = rows_view(rows@);
    let h: usize = rows.len();
    let w: usize = rows[0].len();
    let mut out: Vec<Vec<[u8; 4]>> = Vec::new();
    let mut i: usize = 0;
    while i < w
        invariant
            g == rows_view(rows@),
            h == g.len(),
            w == g[0].len(),
            rows_fit_first(g),
            i <= w,
            out@.len() == i,
            forall|k: int| 0 <= k < i ==> #[trigger] out@[k]@ == rotated(g)[k],
        decreases w - i,
    {
        let mut row: Vec<[u8; 4]> = Vec::new();
        let mut j: usize = 0;
        while j < h
            invariant
                g == rows_view(rows@),
                h == g.len(),
                w == g[0].len(),
                rows_fit_first(g),
                i < w,
                j <= h,
                row@.len() == j,
                forall|k: int| 0 <= k < j ==> #[trigger] row@[k] == rotated(g)[i as int][k],
            decreases h - j,
        {
            let src: &Vec<[u8; 4]> = &rows[h - 1 - j];
            assert(src@ == g[h - 1 - j as int]);
            if i < src.len() {
                row.push(src[i]);
            } else {
                row.push([0u8, 0u8, 0u8, 0u8]);
            }
            j = j + 1;
        }
        assert(row@ =~= rotated(g)[i as int]);
        out.push(row);
        i = i + 1;
    }
    assert(rows_view(out@) =~= rotated(g));
    out
}

fn inline_rows(rows: &Vec<Vec<[u8; 4]>>) -> (r: Vec<u8>)
    ensures
        r@ == grid_bytes(rows_view(rows@)),
{
    let ghost g = rows_view(rows@);
    let mut out: Vec<u8> = Vec::new();
    let mut y: usize = 0;
    while y < rows.len()
        invariant
            g == rows_view(rows@),
            y <= g.len(),
            out@ == grid_bytes(g.take(y as int)),
        decreases g.len() - y,
    {
        let src: &Vec<[u8; 4]> = &rows[y];
        let ghost before = out@;
        let mut x: usize = 0;
        while x < src.len()
            invariant
                src@ == g[y as int],
                x <= src@.len(),
                out@ == before + row_bytes(src@.take(x as int)),
            decreases src@.len() - x,
        {
            let p: [u8; 4] = src[x];
            out.push(p[0]);
            out.push(p[1]);
            out.push(p[2]);
            out.push(p[3]);
            proof {
                assert(src@.take(x + 1).drop_last() =~= src@.take(x as int));
                assert(row_bytes(src@.take(x + 1)) == row_bytes(src@.take(x as int)) + pixel_bytes(
                    p,
                ));
            }
            x = x + 1;
            assert(out@ =~= before + row_bytes(src@.take(x as int)));
        }
        proof {
            assert(src@.take(src@.len() as int) =~= src@);
            assert(g.take(y + 1).drop_last() =~= g.take(y as int));
            assert(g.take(y + 1).last() == g[y as int]);
        }
        y = y + 1;
    }
    assert(g.take(g.len() as int) =~= g);
    out
}

impl VecTexture {
    /// Width (the length of the first row) and height.
    pub fn size(&self) -> (r: (usize, usize))
        requires
            self@.len() > 0,
        ensures
            r.0 == self@[0].len(),
            r.1 == self@.len(),
    {
        (self.rows[0].len(), self.rows.len())
    }

    /// The bytes of all pixels, row after row.
    pub fn inline(&self) -> (r: Vec<u8>)
        ensures
            r@ == grid_bytes(self@),
    {
        inline_rows(&self.rows)
    }

    /// The texture itself.
    pub fn owned(self) -> (r: VecTexture)
        ensures
            r@ == self@,
    {
        self
    }

    /// A copy of the rectangle `rect = (x, y, width, height)`.
    pub fn slice(&self, rect: (usize, usize, usize, usize)) -> (r: TextureSlice)
        requires
            rect_within(self@, rect.0 as int, rect.1 as int, rect.2 as int, rect.3 as int),
        ensures
            r@ == sub_rows(self@, rect.0 as int, rect.1 as int, rect.2 as int, rect.3 as int),
    {
        TextureSlice { rows: copy_rect(&self.rows, rect.0, rect.1, rect.2, rect.3) }
    }

    /// The texture turned a quarter clockwise.
    pub fn rotate(&self) -> (r: VecTexture)
        requires
            rows_fit_first(self@),
        ensures
            r@ == rotated(self@),
    {
        VecTexture { rows: rotate_rows(&self.rows) }
    }

    /// Paints `painting` over the texture with its top left pixel at
    /// `pos = (x, y)`.
    pub fn paint(&mut self, painting: &VecTexture, pos: (usize, usize))
        requires
            paint_fits(old(self)@, painting@, pos.0 as int, pos.1 as int),
        ensures
            final(self)@ == painted(old(self)@, painting@, pos.0 as int, pos.1 as int),
    {
        let ghost g0 = self@;
        let ghost p = painting@;
        let (x0, y0) = pos;
        let n: usize = painting.rows.len();
        let total: usize = self.rows.len();
        let mut y: usize = 0;
        while y < n
            invariant
                g0 == old(self)@,
                total == self.rows@.len(),
                p == painting@,
                n == p.len(),
                paint_fits(g0, p, x0 as int, y0 as int),
                y <= n,
                self@.len() == g0.len(),
                forall|r: int|
                    0 <= r < g0.len() ==> #[trigger] self@[r] == if y0 <= r < y0 + y {
                        painted(g0, p, x0 as int, y0 as int)[r]
                    } else {
                        g0[r]
                    },
            decreases n - y,
        {
            assert(x0 + p[y as int].len() <= g0[y0 + y as int].len());
            let src: &Vec<[u8; 4]> = &painting.rows[y];
            let dst: &Vec<[u8; 4]> = &self.rows[y0 + y];
            let ghost d = dst@;
            assert(self@[y0 + y as int] == g0[y0 + y as int]);
            assert(d == self@[y0 + y as int]);
            let mut row: Vec<[u8; 4]> = Vec::new();
            let mut c: usize = 0;
            while c < dst.len()
                invariant
                    0 <= y < p.len(),
                    y0 + y < g0.len(),
                    paint_fits(g0, p, x0 as int, y0 as int),
                    src@ == p[y as int],
                    dst@ == d,
                    d == g0[y0 + y as int],
                    x0 + src@.len() <= d.len(),
                    c <= d.len(),
                    row@.len() == c,
                    forall|k: int|
                        0 <= k < c ==> #[trigger] row@[k] == painted(g0, p, x0 as int, y0 as int)[y0
                            + y][k],
                decreases d.len() - c,
            {
                if x0 <= c && c - x0 < src.len() {
                    row.push(src[c - x0]);
                } else {
                    row.push(dst[c]);
                }
                c = c + 1;
            }
            assert(row@ =~= painted(g0, p, x0 as int, y0 as int)[y0 + y]);
            let ghost prev = self@;
            self.rows.set(y0 + y, row);
            y = y + 1;
            assert forall|r: int| 0 <= r < g0.len() implies #[trigger] self@[r] == if y0 <= r < y0
                + y {
                painted(g0, p, x0 as int, y0 as int)[r]
            } else {
                g0[r]
            } by {
                if r != y0 + y - 1 {
                    assert(self@[r] == prev[r]);
                }
            }
        }
        proof {
            assert forall|r: int| 0 <= r < g0.len() implies #[trigger] self@[r] == painted(
                g0,
                p,
                x0 as int,
                y0 as int,
            )[r] by {
                if !(y0 <= r < y0 + n) {
                    assert(painted(g0, p, x0 as int, y0 as int)[r] =~= g0[r]);
                }
            }
            assert(self@ =~= painted(g0, p, x0 as int, y0 as int));
        }
    }
}

impl TextureSlice {
    /// Width (the length of the first row) and height.
    pub fn size(&self) -> (r: (usize, usize))
        requires
            self@.len() > 0,
        ensures
            r.0 == self@[0].len(),
            r.1 == self@.len(),
    {
        (self.rows[0].len(), self.rows.len())
    }

    /// The bytes of all pixels, row after row.
    pub fn inline(&self) -> (r: Vec<u8>)
        ensures
            r@ == grid_bytes(self@),
    {
        inline_rows(&self.rows)
    }

    /// The slice as a texture of its own.
    pub fn owned(self) -> (r: VecTexture)
        ensures
            r@ == self@,
    {
        VecTexture { rows: self.rows }
    }

    /// A copy of a rectangle of the slice. Here `rect` is
    /// `(x start, y start, height, x end)`.
    pub fn slice(&self, rect: (usize, usize, usize, usize)) -> (r: TextureSlice)
        requires
            rect.0 <= rect.3,
            rect_within(self@, rect.0 as int, rect.1 as int, rect.3 - rect.0, rect.2 as int),
        ensures
            r@ == sub_rows(self@, rect.0 as int, rect.1 as int, rect.3 - rect.0, rect.2 as int),
    {
        TextureSlice { rows: copy_rect(&self.rows, rect.0, rect.1, rect.3 - rect.0, rect.2) }
    }

    /// The slice turned a quarter clockwise.
    pub fn rotate(&self) -> (r: VecTexture)
        requires
            rows_fit_first(self@),
        ensures
            r@ == rotated(self@),
    {
        VecTexture { rows: rotate_rows(&self.rows) }
    }
}

/// Every row of `g` is `w` pixels long.
pub open spec fn rectangular(g: Seq<Seq<[u8; 4]>>, w: int) -> bool {
    forall|y: int| 0 <= y < g.len() ==> #[trigger] g[y].len() == w
}

proof fn lemma_rotated_rectangular(g: Seq<Seq<[u8; 4]>>, w: int)
    requires
        g.len() > 0,
        w > 0,
        rectangular(g, w),
    ensures
        rotated(g).len() == w,
        rectangular(rotated(g), g.len() as int),
        forall|i: int, j: int|
            0 <= i < w && 0 <= j < g.len() ==> #[trigger] rotated(g)[i][j] == g[g.len() - 1 - j][i],
{
    assert(g[0].len() == w);
}

/// A quarter turn of a `w` by `h` texture is `h` by `w`, and four quarter
/// turns give the texture back.
pub proof fn lemma_four_turns_identity(g: Seq<Seq<[u8; 4]>>, w: int)
    requires
        g.len() > 0,
        w > 0,
        rectangular(g, w),
    ensures
        rotated(g).len() == w,
        rectangular(rotated(g), g.len() as int),
        rotated(rotated(rotated(rotated(g)))) == g,
{
    let h = g.len() as int;
    let r1 = rotated(g);
    lemma_rotated_rectangular(g, w);
    let r2 = rotated(r1);
    lemma_rotated_rectangular(r1, h);
    let r3 = rotated(r2);
    lemma_rotated_rectangular(r2, w);
    let r4 = rotated(r3);
    lemma_rotated_rectangular(r3, h);
    assert forall|a: int| 0 <= a < h implies #[trigger] r4[a] =~= g[a] by {
        assert forall|b: int| 0 <= b < w implies r4[a][b] == g[a][b] by {
            assert(r4[a][b] == r3[w - 1 - b][a]);
            assert(r3[w - 1 - b][a] == r2[h - 1 - a][w - 1 - b]);
            assert(r2[h - 1 - a][w - 1 - b] == r1[b][h - 1 - a]);
            assert(r1[b][h - 1 - a] == g[a][b]);
        }
    }
    assert(r4 =~= g);
}

/// Cutting out the rectangle just painted gives the painting back, for a
/// painting whose rows are all `w` pixels long.
pub proof fn lemma_slice_of_painted(
    g: Seq<Seq<[u8; 4]>>,
    p: Seq<Seq<[u8; 4]>>,
    x0: int,
    y0: int,
    w: int,
)
    requires
        paint_fits(g, p, x0, y0),
        w >= 0,
        rectangular(p, w),
    ensures
        rect_within(painted(g, p, x0, y0), x0, y0, w, p.len() as int),
        sub_rows(painted(g, p, x0, y0), x0, y0, w, p.len() as int) == p,
{
    let q = painted(g, p, x0, y0);
    assert forall|y: int| 0 <= y < p.len() implies x0 + w <= #[trigger] q[y0 + y].len() by {
        assert(x0 + p[y].len() <= g[y0 + y].len());
    }
    let s = sub_rows(q, x0, y0, w, p.len() as int);
    assert forall|y: int| 0 <= y < p.len() implies #[trigger] s[y] =~= p[y] by {
        assert(x0 + p[y].len() <= g[y0 + y].len());
    }
    assert(s =~= p);
}

proof fn lemma_row_bytes_len(r: Seq<[u8; 4]>)
    ensures
        row_bytes(r).len() == 4 * r.len(),
    decreases r.len(),
{
    if r.len() > 0 {
        lemma_row_bytes_len(r.drop_last());
    }
}

/// Flattening a texture of `h` rows of `w` pixels gives `4 * w * h` bytes.
pub proof fn lemma_inline_len(g: Seq<Seq<[u8; 4]>>, w: int)
    requires
        w >= 0,
        rectangular(g, w),
    ensures
        grid_bytes(g).len() == 4 * w * g.len(),
    decreases g.len(),
{
    if g.len() > 0 {
        let d = g.drop_last();
        assert forall|y: int| 0 <= y < d.len() implies #[trigger] d[y].len() == w by {
            assert(d[y] == g[y]);
        }
        lemma_inline_len(d, w);
        lemma_row_bytes_len(g.last());
        assert(4 * w * d.len() + 4 * w == 4 * w * g.len()) by (nonlinear_arith)
            requires
                d.len() + 1 == g.len(),
        ;
    }
}

/// `n / d` rounded up, for `d > 0`.
pub open spec fn ceil_count(n: int, d: int) -> int {
    n / d + if n % d > 0 {
        1int
    } else {
        0int
    }
}

/// Byte `i` of `b`, or 255 past its end.
pub open spec fn byte_or_opaque(b: Seq<u8>, i: int) -> u8 {
    if i < b.len() {
        b[i]
    } else {
        255u8
    }
}

/// Pixel `k` of an image held as bytes: the `k`-th group of four, with the
/// channels that a short last group lacks at 255.
pub open spec fn image_pixel(b: Seq<u8>, k: int) -> [u8; 4] {
    [
        byte_or_opaque(b, 4 * k),
        byte_or_opaque(b, 4 * k + 1),
        byte_or_opaque(b, 4 * k + 2),
        byte_or_opaque(b, 4 * k + 3),
    ]
}

/// The rows of an image held as bytes, `w` pixels to a row; the last row holds
/// what is left.
pub open spec fn image_rows(b: Seq<u8>, w: int) -> Seq<Seq<[u8; 4]>> {
    let n = ceil_count(b.len() as int, 4);
    Seq::new(
        ceil_count(n, w) as nat,
        |r: int|
            Seq::new(
                (if n - r * w < w {
                    n - r * w
                } else {
                    w
                }) as nat,
                |c: int| image_pixel(b, r * w + c),
            ),
    )
}

proof fn lemma_below_ceil_count(n: int, d: int, r: int)
    requires
        n >= 0,
        d > 0,
        0 <= r < ceil_count(n, d),
    ensures
        r * d < n,
{
    lemma_fundamental_div_mod(n, d);
    let q = n / d;
    assert(r * d < n) by (nonlinear_arith)
        requires
            n == d * q + n % d,
            0 <= n % d < d,
            r < q + if n % d > 0 {
                1int
            } else {
                0int
            },
            0 <= r,
            d > 0,
    ;
}

fn ceil_count_exec(n: usize, d: usize) -> (r: usize)
    requires
        d > 0,
    ensures
        r == ceil_count(n as int, d as int),
{
    proof {
        lemma_fundamental_div_mod(n as int, d as int);
        assert(n / d <= n) by (nonlinear_arith)
            requires
                n == d * (n / d) + n % d,
                0 <= n % d,
                d >= 1,
                n >= 0,
        ;
    }
    if n % d > 0 {
        proof {
            if n / d == n {
                assert(false) by (nonlinear_arith)
                    requires
                        n == d * (n / d) + n % d,
                        n % d > 0,
                        n / d == n,
                        d >= 1,
                ;
            }
        }
        n / d + 1
    } else {
        n / d
    }
}

fn image_pixel_exec(bytes: &Vec<u8>, k: usize) -> (r: [u8; 4])
    requires
        k < ceil_count(bytes@.len() as int, 4),
    ensures
        r == image_pixel(bytes@, k as int),
{
    let len: usize = bytes.len();
    proof {
        lemma_below_ceil_count(len as int, 4, k as int);
    }
    let base: usize = 4 * k;
    let mut px: [u8; 4] = [255u8, 255u8, 255u8, 255u8];
    if 0 < len - base {
        px.set(0, bytes[base]);
    }
    if 1 < len - base {
        px.set(1, bytes[base + 1]);
    }
    if 2 < len - base {
        px.set(2, bytes[base + 2]);
    }
    if 3 < len - base {
        px.set(3, bytes[base + 3]);
    }
    assert(px@ =~= image_pixel(bytes@, k as int)@);
    px
}

/// Builds a texture from an image held as bytes, four to a pixel, `width`
/// pixels to a row.
pub fn into_vec_texture(bytes: &Vec<u8>, width: usize) -> (r: VecTexture)
    requires
        width > 0,
    ensures
        r@ == image_rows(bytes@, width as int),
{
    let ghost g = image_rows(bytes@, width as int);
    let n: usize = ceil_count_exec(bytes.len(), 4);
    let nrows: usize = ceil_count_exec(n, width);
    let mut rows: Vec<Vec<[u8; 4]>> = Vec::new();
    let mut r: usize = 0;
    while r < nrows
        invariant
            g == image_rows(bytes@, width as int),
            n == ceil_count(bytes@.len() as int, 4),
            nrows == ceil_count(n as int, width as int),
            width > 0,
            r <= nrows,
            rows@.len() == r,
            forall|k: int| 0 <= k < r ==> #[trigger] rows@[k]@ == g[k],
        decreases nrows - r,
    {
        proof {
            lemma_below_ceil_count(n as int, width as int, r as int);
        }
        let start: usize = r * width;
        let len: usize = if n - start < width {
            n - start
        } else {
            width
        };
        let mut row: Vec<[u8; 4]> = Vec::new();
        let mut c: usize = 0;
        while c < len
            invariant
                g == image_rows(bytes@, width as int),
                n == ceil_count(bytes@.len() as int, 4),
                nrows == ceil_count(n as int, width as int),
                r < nrows,
                start == r * width,
                start + len <= n,
                len == g[r as int].len(),
                c <= len,
                row@.len() == c,
                forall|k: int| 0 <= k < c ==> #[trigger] row@[k] == g[r as int][k],
            decreases len - c,
        {
            row.push(image_pixel_exec(bytes, start + c));
            c = c + 1;
        }
        assert(row@ =~= g[r as int]);
        rows.push(row);
        r = r + 1;
    }
    let out = VecTexture { rows };
    assert(out@ =~= g);
    out
}

} // verus!

use vstd::prelude::*;
use vstd::arithmetic::div_mod::{
    lemma_div_pos_is_pos, lemma_fundamental_div_mod, lemma_fundamental_div_mod_converse,
    lemma_mod_bound,
};

use crate::decimal::{decimal, push_decimal};

verus! {

/// One pixel: red, green and blue channels.
pub type Rgb = (u8, u8, u8);

/// Number of column shards that a render is split into.
pub const THREAD_COUNT: usize = 8;

/// A `width` x `height` grid of colours, stored column by column:
/// `buffer[x][y]` is the pixel at column `x`, row `y`.
pub struct PPM {
    width: usize,
    height: usize,
    buffer: Vec<Vec<Rgb>>,
}

/// A grid of `width` columns of `height` pixels each.
pub open spec fn grid_shape(g: Seq<Seq<Rgb>>, width: nat, height: nat) -> bool {
    &&& g.len() == width
    &&& forall|x: int| 0 <= x < g.len() ==> (#[trigger] g[x]).len() == height
}

/// The all-black grid.
pub open spec fn black_grid(width: nat, height: nat) -> Seq<Seq<Rgb>> {
    Seq::new(width, |x: int| Seq::new(height, |y: int| (0u8, 0u8, 0u8)))
}

/// Columns per shard when `width` columns are split over `workers` shards;
/// the last `width % workers` columns belong to no shard.
pub open spec fn shard_width(width: nat, workers: nat) -> nat {
    width / workers
}

/// The grid `g` after shard `t` of `shards` has been copied to columns
/// `[t * size, (t + 1) * size)` for every `t`, with `size` the shard width;
/// columns past the last shard keep their colours.
pub open spec fn merged(g: Seq<Seq<Rgb>>, shards: Seq<Seq<Seq<Rgb>>>) -> Seq<Seq<Rgb>> {
    let size = shard_width(g.len(), shards.len());
    Seq::new(
        g.len(),
        |x: int|
            if x < shards.len() * size {
                shards[x / size as int][x % size as int]
            } else {
                g[x]
            },
    )
}

/// ASCII space, which ends every channel value.
pub const SPACE: u8 = 32;

/// ASCII line feed, which ends each header line.
pub const NEWLINE: u8 = 10;

/// The header: the magic number of plain-text PPM, then `width height`,
/// then the largest channel value `255`, each on a line of its own.
pub open spec fn ppm_header(width: nat, height: nat) -> Seq<u8> {
    seq![80u8, 51u8, NEWLINE] + decimal(width) + seq![SPACE] + decimal(height) + seq![
        NEWLINE,
        50u8,
        53u8,
        53u8,
        NEWLINE,
    ]
}

/// One pixel as `r g b `: three decimal channels, each followed by a space.
pub open spec fn pixel_text(c: Rgb) -> Seq<u8> {
    decimal(c.0 as nat) + seq![SPACE] + decimal(c.1 as nat) + seq![SPACE] + decimal(c.2 as nat)
        + seq![SPACE]
}

/// The pixels of one column, top row first.
pub open spec fn column_text(col: Seq<Rgb>) -> Seq<u8>
    decreases col.len(),
{
    if col.len() == 0 {
        seq![]
    } else {
        column_text(col.drop_last()) + pixel_text(col.last())
    }
}

/// The pixels of a grid, column by column from the left, each column top
/// row first.
pub open spec fn grid_text(g: Seq<Seq<Rgb>>) -> Seq<u8>
    decreases g.len(),
{
    if g.len() == 0 {
        seq![]
    } else {
        grid_text(g.drop_last()) + column_text(g.last())
    }
}

/// The whole plain-text PPM file of a `width` x `height` grid.
pub open spec fn ppm_text(width: nat, height: nat, g: Seq<Seq<Rgb>>) -> Seq<u8> {
    ppm_header(width, height) + grid_text(g)
}

/// Fills the columns `[t * size, (t + 1) * size)` of an image of `height`
/// rows: column `j` of the result holds `color_function(t * size + j, y)` at
/// row `y`. A shard is computed from its coordinates alone.
pub fn compute_shard<F: Fn(usize, usize) -> Rgb>(
    t: usize,
    size: usize,
    height: usize,
    color_function: F,
) -> (r: Vec<Vec<Rgb>>)
    requires
        t * size + size <= usize::MAX,
        forall|x: usize, y: usize|
            t * size <= x < t * size + size && y < height ==> color_function.requires((x, y)),
    ensures
        grid_shape(r@.map_values(|c: Vec<Rgb>| c@), size as nat, height as nat),
        forall|j: int, y: int|
            0 <= j < size && 0 <= y < height ==> color_function.ensures(
                ((t * size + j) as usize, y as usize),
                #[trigger] r@[j]@[y],
            ),
{
    let base: usize = t * size;
    let mut shard: Vec<Vec<Rgb>> = Vec::new();
    let mut j: usize = 0;
    while j < size
        invariant
            base == t * size,
            base + size <= usize::MAX,
            j <= size,
            shard@.len() == j,
            forall|x: usize, y: usize|
                base <= x < base + size && y < height ==> color_function.requires((x, y)),
            forall|k: int| 0 <= k < j ==> (#[trigger] shard@[k])@.len() == height,
            forall|k: int, y: int|
                0 <= k < j && 0 <= y < height ==> color_function.ensures(
                    ((base + k) as usize, y as usize),
                    #[trigger] shard@[k]@[y],
                ),
        decreases size - j,
    {
        let mut column: Vec<Rgb> = Vec::new();
        let mut y: usize = 0;
        while y < height
            invariant
                base == t * size,
                base + size <= usize::MAX,
                j < size,
                y <= height,
                column@.len() == y,
                forall|x: usize, y: usize|
                    base <= x < base + size && y < height ==> color_function.requires((x, y)),
                forall|k: int|
                    0 <= k < y ==> color_function.ensures(
                        ((base + j) as usize, k as usize),
                        #[trigger] column@[k],
                    ),
            decreases height - y,
        {
            let c = color_function(base + j, y);
            column.push(c);
            y = y + 1;
        }
        shard.push(column);
        j = j + 1;
    }
    assert(shard@.map_values(|c: Vec<Rgb>| c@).len() == size);
    shard
}

/// Rendering by shards changes no pixel: when the shard count divides the
/// width and every shard holds `f` at each of its own columns and rows, the
/// merged grid holds `f` at every pixel, as an evaluation of `f` pixel by
/// pixel would, whatever the grid held before.
pub proof fn lemma_sharded_render_is_sequential(
    g: Seq<Seq<Rgb>>,
    shards: Seq<Seq<Seq<Rgb>>>,
    height: nat,
    f: spec_fn(int, int) -> Rgb,
)
    requires
        shards.len() > 0,
        g.len() % shards.len() == 0,
        forall|t: int|
            0 <= t < shards.len() ==> grid_shape(
                #[trigger] shards[t],
                shard_width(g.len(), shards.len()),
                height,
            ),
        forall|t: int, j: int, y: int|
            0 <= t < shards.len() && 0 <= j < shard_width(g.len(), shards.len()) && 0 <= y
                < height ==> #[trigger] shards[t][j][y] == f(
                t * shard_width(g.len(), shards.len()) + j,
                y,
            ),
    ensures
        merged(g, shards) == Seq::new(g.len(), |x: int| Seq::new(height, |y: int| f(x, y))),
{
    let n = shards.len() as int;
    let size = shard_width(g.len(), shards.len()) as int;
    lemma_fundamental_div_mod(g.len() as int, n);
    assert(g.len() == n * size);
    let want = Seq::new(g.len(), |x: int| Seq::new(height, |y: int| f(x, y)));
    assert forall|x: int| 0 <= x < g.len() implies merged(g, shards)[x] == want[x] by {
        assert(size > 0) by (nonlinear_arith)
            requires g.len() == n * size, 0 <= x < g.len(), n > 0, size >= 0;
        lemma_fundamental_div_mod(x, size);
        lemma_mod_bound(x, size);
        let t = x / size;
        let j = x % size;
        lemma_div_pos_is_pos(x, size);
        assert(t < n) by (nonlinear_arith)
            requires x == size * t + j, 0 <= j, x < n * size, size > 0;
        assert(x == t * size + j) by (nonlinear_arith)
            requires x == size * t + j;
        assert(n * size == shards.len() * size);
        assert(grid_shape(shards[t], size as nat, height));
        assert(merged(g, shards)[x] == shards[t][j]);
        assert(shards[t][j] =~= want[x]);
    }
    assert(merged(g, shards) =~= want);
}

impl View for PPM {
    type V = Seq<Seq<Rgb>>;

    closed spec fn view(&self) -> Seq<Seq<Rgb>> {
        self.buffer@.map_values(|c: Vec<Rgb>| c@)
    }
}

impl PPM {
    /// Width in pixels.
    pub closed spec fn spec_width(&self) -> nat {
        self.width as nat
    }

    /// Height in pixels.
    pub closed spec fn spec_height(&self) -> nat {
        self.height as nat
    }

    /// The grid has `width` columns of `height` pixels.
    pub open spec fn wf(&self) -> bool {
        grid_shape(self@, self.spec_width(), self.spec_height())
    }

    /// An all-black grid of the given size.
    pub fn new(width: usize, height: usize) -> (r: Self)
        ensures
            r.wf(),
            r.spec_width() == width,
            r.spec_height() == height,
            r@ == black_grid(width as nat, height as nat),
    {
        let mut buffer: Vec<Vec<Rgb>> = Vec::new();
        let mut x: usize = 0;
        while x < width
            invariant
                x <= width,
                buffer@.len() == x,
                forall|i: int|
                    0 <= i < x ==> (#[trigger] buffer@[i])@ == Seq::new(
                        height as nat,
                        |y: int| (0u8, 0u8, 0u8),
                    ),
            decreases width - x,
        {
            let mut column: Vec<Rgb> = Vec::new();
            let mut y: usize = 0;
            while y < height
                invariant
                    y <= height,
                    column@ == Seq::new(y as nat, |k: int| (0u8, 0u8, 0u8)),
                decreases height - y,
            {
                column.push((0u8, 0u8, 0u8));
                y = y + 1;
                assert(column@ =~= Seq::new(y as nat, |k: int| (0u8, 0u8, 0u8)));
            }
            buffer.push(column);
            x = x + 1;
        }
        let r = PPM { width, height, buffer };
        assert(r@ =~= black_grid(width as nat, height as nat));
        r
    }

    /// Width in pixels.
    pub fn width(&self) -> (r: usize)
        ensures
            r == self.spec_width(),
    {
        self.width
    }

    /// The pixel at column `x`, row `y`.
    pub fn pixel(&self, x: usize, y: usize) -> (r: Rgb)
        requires
            self.wf(),
            x < self.spec_width(),
            y < self.spec_height(),
        ensures
            r == self@[x as int][y as int],
    {
        assert(self.buffer@[x as int]@ == self@[x as int]);
        self.buffer[x][y]
    }

    /// Copies shard `t` of `shards` to columns `[t * size, (t + 1) * size)`,
    /// with `size = width / shards.len()`, in shard order. Columns that no
    /// shard covers keep their colours.
    pub fn merge_shards(&mut self, shards: Vec<Vec<Vec<Rgb>>>)
        requires
            old(self).wf(),
            shards@.len() > 0,
            forall|t: int|
                0 <= t < shards@.len() ==> grid_shape(
                    (#[trigger] shards@[t])@.map_values(|c: Vec<Rgb>| c@),
                    shard_width(old(self).spec_width(), shards@.len()),
                    old(self).spec_height(),
                ),
        ensures
            final(self).wf(),
            final(self).spec_width() == old(self).spec_width(),
            final(self).spec_height() == old(self).spec_height(),
            final(self)@ == merged(
                old(self)@,
                shards@.map_values(|s: Vec<Vec<Rgb>>| s@.map_values(|c: Vec<Rgb>| c@)),
            ),
    {
        let ghost sv = shards@.map_values(|s: Vec<Vec<Rgb>>| s@.map_values(|c: Vec<Rgb>| c@));
        let ghost g0 = self@;
        let ghost h0 = self.height;
        let workers = shards.len();
        let size = self.width / workers;
        proof {
            assert(workers * size <= self.width) by (nonlinear_arith)
                requires size == self.width / workers, workers > 0;
        }
        let mut shards = shards;
        let mut t: usize = workers;
        while t > 0
            invariant
                workers == sv.len(),
                size == shard_width(g0.len(), workers as nat),
                workers * size <= self.width,
                t <= workers,
                shards@.len() == t,
                forall|k: int|
                    0 <= k < t ==> (#[trigger] shards@[k])@.map_values(|c: Vec<Rgb>| c@) == sv[k],
                forall|k: int| 0 <= k < workers ==> grid_shape(#[trigger] sv[k], size as nat, self.height as nat),
                self.width == g0.len(),
                self.height == h0,
                self.wf(),
                self@.len() == g0.len(),
                forall|x: int|
                    0 <= x < g0.len() ==> #[trigger] self@[x] == (if t * size <= x < workers * size {
                        merged(g0, sv)[x]
                    } else {
                        g0[x]
                    }),
            decreases t,
        {
            t = t - 1;
            let mut shard = shards.pop().unwrap();
            assert(shard@.map_values(|c: Vec<Rgb>| c@) == sv[t as int]);
            proof {
                assert(t * size + size <= workers * size) by (nonlinear_arith)
                    requires t < workers;
                assert((t + 1) * size == t * size + size) by (nonlinear_arith);
            }
            let mut j: usize = size;
            while j > 0
                invariant
                    t < workers,
                    t * size + size <= workers * size,
                    workers * size <= self.width,
                    workers == sv.len(),
                    size == shard_width(g0.len(), workers as nat),
                    j <= size,
                    shard@.len() == j,
                    forall|k: int| 0 <= k < j ==> (#[trigger] shard@[k])@ == sv[t as int][k],
                    forall|k: int| 0 <= k < workers ==> grid_shape(#[trigger] sv[k], size as nat, self.height as nat),
                    self.width == g0.len(),
                    self.height == h0,
                    self.wf(),
                    self@.len() == g0.len(),
                    forall|x: int|
                        0 <= x < g0.len() ==> #[trigger] self@[x] == (if t * size + j <= x < workers * size {
                            merged(g0, sv)[x]
                        } else {
                            g0[x]
                        }),
                decreases j,
            {
                j = j - 1;
                let column = shard.pop().unwrap();
                let x: usize = t * size + j;
                proof {
                    lemma_fundamental_div_mod_converse(x as int, size as int, t as int, j as int);
                    assert(merged(g0, sv)[x as int] == sv[t as int][j as int]);
                }
                let ghost before = self.buffer@;
                let ghost prev = self@;
                self.buffer.set(x, column);
                proof {
                    assert(self.buffer@ == before.update(x as int, column));
                    assert(grid_shape(sv[t as int], size as nat, self.height as nat));
                    assert(column@ == sv[t as int][j as int]);
                    assert(self@[x as int] == column@);
                    assert forall|i: int| 0 <= i < self@.len() implies (#[trigger] self@[i]).len() == self.height by {
                        assert(self@[i] == self.buffer@[i]@);
                        if i != x {
                            assert(self.buffer@[i] == before[i]);
                            assert(prev[i] == before[i]@);
                        }
                    }
                    assert forall|i: int| 0 <= i < g0.len() implies #[trigger] self@[i] == (if t * size + j <= i < workers * size {
                        merged(g0, sv)[i]
                    } else {
                        g0[i]
                    }) by {
                        assert(self@[i] == self.buffer@[i]@);
                        if i != x {
                            assert(self.buffer@[i] == before[i]);
                            assert(prev[i] == before[i]@);
                        }
                    }
                }
            }
        }
        assert(self@ =~= merged(g0, sv));
    }

    /// The grid in plain-text PPM form: the header, then every pixel as
    /// `r g b `, column by column from the left, each column top row first.
    pub fn contents(&self) -> (r: Vec<u8>)
        requires
            self.wf(),
        ensures
            r@ == ppm_text(self.spec_width(), self.spec_height(), self@),
    {
        let mut out: Vec<u8> = Vec::new();
        out.push(80u8);
        out.push(51u8);
        out.push(NEWLINE);
        push_decimal(&mut out, self.width);
        out.push(SPACE);
        push_decimal(&mut out, self.height);
        out.push(NEWLINE);
        out.push(50u8);
        out.push(53u8);
        out.push(53u8);
        out.push(NEWLINE);
        let ghost header = ppm_header(self.width as nat, self.height as nat);
        assert(out@ =~= header);
        let ghost g = self@;
        let mut x: usize = 0;
        while x < self.width
            invariant
                self.wf(),
                g == self@,
                x <= self.width,
                out@ == header + grid_text(g.take(x as int)),
            decreases self.width - x,
        {
            assert(self.buffer@[x as int]@ == g[x as int]);
            let column = &self.buffer[x];
            let ghost col = g[x as int];
            let ghost before = out@;
            let mut y: usize = 0;
            while y < self.height
                invariant
                    column@ == col,
                    col.len() == self.height,
                    y <= self.height,
                    out@ == before + column_text(col.take(y as int)),
                decreases self.height - y,
            {
                let c = column[y];
                push_decimal(&mut out, c.0 as usize);
                out.push(SPACE);
                push_decimal(&mut out, c.1 as usize);
                out.push(SPACE);
                push_decimal(&mut out, c.2 as usize);
                out.push(SPACE);
                assert(col.take(y + 1).drop_last() =~= col.take(y as int));
                y = y + 1;
                assert(out@ =~= before + column_text(col.take(y as int)));
            }
            assert(col.take(y as int) =~= col);
            assert(g.take(x + 1).drop_last() =~= g.take(x as int));
            x = x + 1;
            assert(out@ =~= header + grid_text(g.take(x as int)));
        }
        assert(g.take(x as int) =~= g);
        out
    }

    /// Height in pixels.
    pub fn height(&self) -> (r: usize)
        ensures
            r == self.spec_height(),
    {
        self.height
    }
}

} // verus!

//! Traversal engine: the order in which pixel coordinates `(row, column)` of a
//! `height` x `width` image are visited.
use vstd::prelude::*;
use vstd::arithmetic::div_mod::{
    lemma_div_pos_is_pos, lemma_fundamental_div_mod, lemma_fundamental_div_mod_converse,
    lemma_mod_pos_bound,
};

verus! {

/// A traversal strategy.
///
/// The four axis-aligned strategies and the two zig-zags visit every coordinate
/// once. The diagonals and the sinusoid visit only a few, for low-capacity
/// watermarks.
#[derive(Debug)]
pub enum TraversalStrategy {
    /// Rows ascending; within a row, columns ascending.
    LeftToRight,
    /// Rows descending; within a row, columns descending.
    RightToLeft,
    /// Columns ascending; within a column, rows ascending.
    TopToBottom,
    /// Columns descending; within a column, rows descending.
    BottomToTop,
    /// Rows ascending; even rows left to right, odd rows right to left.
    ZigZagHorizontal,
    /// Columns ascending; even columns top to bottom, odd columns bottom to top.
    ZigZagVertical,
    /// `(k, k)` for `k` below `min(width, height)`.
    DiagonalRight,
    /// `(k, width - 1 - k)` for `k` below `min(width, height)`.
    DiagonalLeft,
    /// One coordinate per row: row `r` is visited at column `columns[r]`, or at
    /// the last column where `columns[r]` lies past it. Rows without an entry are
    /// not visited. The columns are the sampled wave, computed by the caller.
    Sinusoidal(Vec<usize>),
}

pub open spec fn min(a: int, b: int) -> int {
    if a <= b {
        a
    } else {
        b
    }
}

/// Number of coordinates that a strategy visits.
pub open spec fn coordinate_count_spec(s: TraversalStrategy, h: int, w: int) -> int {
    match s {
        TraversalStrategy::DiagonalRight => min(h, w),
        TraversalStrategy::DiagonalLeft => min(h, w),
        TraversalStrategy::Sinusoidal(columns) => if w == 0 {
            0
        } else {
            min(h, columns@.len() as int)
        },
        _ => h * w,
    }
}

/// The `k`-th coordinate `(row, column)` that a strategy visits.
pub open spec fn coordinate_spec(s: TraversalStrategy, h: int, w: int, k: int) -> (int, int) {
    match s {
        TraversalStrategy::LeftToRight => (k / w, k % w),
        TraversalStrategy::RightToLeft => (h - 1 - k / w, w - 1 - k % w),
        TraversalStrategy::TopToBottom => (k % h, k / h),
        TraversalStrategy::BottomToTop => (h - 1 - k % h, w - 1 - k / h),
        TraversalStrategy::ZigZagHorizontal => (
            k / w,
            if (k / w) % 2 == 0 {
                k % w
            } else {
                w - 1 - k % w
            },
        ),
        TraversalStrategy::ZigZagVertical => (
            if (k / h) % 2 == 0 {
                k % h
            } else {
                h - 1 - k % h
            },
            k / h,
        ),
        TraversalStrategy::DiagonalRight => (k, k),
        TraversalStrategy::DiagonalLeft => (k, w - 1 - k),
        TraversalStrategy::Sinusoidal(columns) => sine_coordinate(columns@, w, k),
    }
}

/// Row `k` of the sinusoid, at its sampled column or the last column.
pub open spec fn sine_coordinate(columns: Seq<usize>, w: int, k: int) -> (int, int) {
    (
        k,
        if columns[k] < w {
            columns[k] as int
        } else {
            w - 1
        },
    )
}

/// Whether a strategy visits every coordinate of the image.
pub open spec fn is_total(s: TraversalStrategy) -> bool {
    match s {
        TraversalStrategy::DiagonalRight => false,
        TraversalStrategy::DiagonalLeft => false,
        TraversalStrategy::Sinusoidal(_) => false,
        _ => true,
    }
}

/// The step at which a total strategy visits `(r, c)`.
pub open spec fn visit_index(s: TraversalStrategy, h: int, w: int, r: int, c: int) -> int {
    match s {
        TraversalStrategy::LeftToRight => r * w + c,
        TraversalStrategy::RightToLeft => (h - 1 - r) * w + (w - 1 - c),
        TraversalStrategy::TopToBottom => c * h + r,
        TraversalStrategy::BottomToTop => (w - 1 - c) * h + (h - 1 - r),
        TraversalStrategy::ZigZagHorizontal => r * w + if r % 2 == 0 {
            c
        } else {
            w - 1 - c
        },
        TraversalStrategy::ZigZagVertical => c * h + if c % 2 == 0 {
            r
        } else {
            h - 1 - r
        },
        _ => 0,
    }
}

proof fn lemma_split(k: int, d: int, n: int)
    requires
        0 <= k < n * d,
        d > 0,
    ensures
        0 <= k / d < n,
        0 <= k % d < d,
        k == (k / d) * d + k % d,
{
    lemma_fundamental_div_mod(k, d);
    lemma_mod_pos_bound(k, d);
    lemma_div_pos_is_pos(k, d);
    let q = k / d;
    assert(q < n) by (nonlinear_arith)
        requires
            k == d * q + k % d,
            k % d >= 0,
            k < n * d,
            d > 0,
    ;
    assert(d * q == q * d) by (nonlinear_arith);
}

proof fn lemma_join(q: int, d: int, r: int, n: int)
    requires
        0 <= q < n,
        0 <= r < d,
    ensures
        (q * d + r) / d == q,
        (q * d + r) % d == r,
        0 <= q * d + r < n * d,
{
    lemma_fundamental_div_mod_converse(q * d + r, d, q, r);
    assert(0 <= q * d + r < n * d) by (nonlinear_arith)
        requires
            0 <= q < n,
            0 <= r < d,
    ;
}

proof fn lemma_positive_sides(h: int, w: int, k: int)
    requires
        0 <= h,
        0 <= w,
        0 <= k < h * w,
    ensures
        h > 0,
        w > 0,
{
    if h == 0 {
        assert(h * w == 0);
    }
    if w == 0 {
        assert(h * w == 0);
    }
}

/// Every coordinate that a strategy visits lies inside the image.
pub proof fn lemma_coordinate_in_bounds(s: TraversalStrategy, h: int, w: int, k: int)
    requires
        0 <= h,
        0 <= w,
        0 <= k < coordinate_count_spec(s, h, w),
    ensures
        0 <= coordinate_spec(s, h, w, k).0 < h,
        0 <= coordinate_spec(s, h, w, k).1 < w,
{
    match s {
        TraversalStrategy::LeftToRight | TraversalStrategy::RightToLeft
        | TraversalStrategy::ZigZagHorizontal => {
            lemma_positive_sides(h, w, k);
            lemma_split(k, w, h);
        },
        TraversalStrategy::TopToBottom | TraversalStrategy::BottomToTop
        | TraversalStrategy::ZigZagVertical => {
            lemma_positive_sides(h, w, k);
            assert(h * w == w * h) by (nonlinear_arith);
            lemma_split(k, h, w);
        },
        _ => {},
    }
}

/// A strategy never visits a coordinate twice.
pub proof fn lemma_coordinates_distinct(s: TraversalStrategy, h: int, w: int, k1: int, k2: int)
    requires
        0 <= h,
        0 <= w,
        0 <= k1 < coordinate_count_spec(s, h, w),
        0 <= k2 < coordinate_count_spec(s, h, w),
        k1 != k2,
    ensures
        coordinate_spec(s, h, w, k1) != coordinate_spec(s, h, w, k2),
{
    match s {
        TraversalStrategy::LeftToRight | TraversalStrategy::RightToLeft
        | TraversalStrategy::ZigZagHorizontal => {
            lemma_positive_sides(h, w, k1);
            lemma_split(k1, w, h);
            lemma_split(k2, w, h);
        },
        TraversalStrategy::TopToBottom | TraversalStrategy::BottomToTop
        | TraversalStrategy::ZigZagVertical => {
            lemma_positive_sides(h, w, k1);
            assert(h * w == w * h) by (nonlinear_arith);
            lemma_split(k1, h, w);
            lemma_split(k2, h, w);
        },
        _ => {},
    }
}

/// The axis-aligned and zig-zag strategies visit every coordinate of the image,
/// `(r, c)` at step `visit_index(s, h, w, r, c)`.
pub proof fn lemma_total_cover(s: TraversalStrategy, h: int, w: int, r: int, c: int)
    requires
        is_total(s),
        0 <= r < h,
        0 <= c < w,
    ensures
        coordinate_count_spec(s, h, w) == h * w,
        0 <= visit_index(s, h, w, r, c) < h * w,
        coordinate_spec(s, h, w, visit_index(s, h, w, r, c)) == (r, c),
{
    match s {
        TraversalStrategy::LeftToRight => {
            lemma_join(r, w, c, h);
        },
        TraversalStrategy::RightToLeft => {
            lemma_join(h - 1 - r, w, w - 1 - c, h);
        },
        TraversalStrategy::ZigZagHorizontal => {
            if r % 2 == 0 {
                lemma_join(r, w, c, h);
            } else {
                lemma_join(r, w, w - 1 - c, h);
            }
        },
        TraversalStrategy::TopToBottom => {
            assert(h * w == w * h) by (nonlinear_arith);
            lemma_join(c, h, r, w);
        },
        TraversalStrategy::BottomToTop => {
            assert(h * w == w * h) by (nonlinear_arith);
            lemma_join(w - 1 - c, h, h - 1 - r, w);
        },
        TraversalStrategy::ZigZagVertical => {
            assert(h * w == w * h) by (nonlinear_arith);
            if c % 2 == 0 {
                lemma_join(c, h, r, w);
            } else {
                lemma_join(c, h, h - 1 - r, w);
            }
        },
        _ => {},
    }
}

/// Number of coordinates that `s` visits on a `height` x `width` image.
pub fn coordinate_count(s: &TraversalStrategy, height: usize, width: usize) -> (n: usize)
    requires
        height * width <= usize::MAX,
    ensures
        n == coordinate_count_spec(*s, height as int, width as int),
{
    match s {
        TraversalStrategy::DiagonalRight | TraversalStrategy::DiagonalLeft => {
            if height <= width {
                height
            } else {
                width
            }
        },
        TraversalStrategy::Sinusoidal(columns) => {
            if width == 0 {
                0
            } else if height <= columns.len() {
                height
            } else {
                columns.len()
            }
        },
        _ => height * width,
    }
}

/// The `k`-th coordinate `(row, column)` that `s` visits.
pub fn coordinate_at(s: &TraversalStrategy, height: usize, width: usize, k: usize) -> (rc: (
    usize,
    usize,
))
    requires
        height * width <= usize::MAX,
        k < coordinate_count_spec(*s, height as int, width as int),
    ensures
        rc.0 == coordinate_spec(*s, height as int, width as int, k as int).0,
        rc.1 == coordinate_spec(*s, height as int, width as int, k as int).1,
        rc.0 < height,
        rc.1 < width,
{
    proof {
        lemma_coordinate_in_bounds(*s, height as int, width as int, k as int);
    }
    match s {
        TraversalStrategy::LeftToRight => (k / width, k % width),
        TraversalStrategy::RightToLeft => (height - 1 - k / width, width - 1 - k % width),
        TraversalStrategy::TopToBottom => (k % height, k / height),
        TraversalStrategy::BottomToTop => (height - 1 - k % height, width - 1 - k / height),
        TraversalStrategy::ZigZagHorizontal => {
            let row = k / width;
            if row % 2 == 0 {
                (row, k % width)
            } else {
                (row, width - 1 - k % width)
            }
        },
        TraversalStrategy::ZigZagVertical => {
            let col = k / height;
            if col % 2 == 0 {
                (k % height, col)
            } else {
                (height - 1 - k % height, col)
            }
        },
        TraversalStrategy::DiagonalRight => (k, k),
        TraversalStrategy::DiagonalLeft => (k, width - 1 - k),
        TraversalStrategy::Sinusoidal(columns) => {
            let c = columns[k];
            if c < width {
                (k, c)
            } else {
                (k, width - 1)
            }
        },
    }
}

/// The full sequence of coordinates that `s` visits, in order.
pub fn traverse(s: &TraversalStrategy, height: usize, width: usize) -> (positions: Vec<(usize, usize)>)
    requires
        height * width <= usize::MAX,
    ensures
        positions.len() == coordinate_count_spec(*s, height as int, width as int),
        forall|k: int|
            0 <= k < positions.len() ==> (#[trigger] positions[k]).0 == coordinate_spec(
                *s,
                height as int,
                width as int,
                k,
            ).0 && positions[k].1 == coordinate_spec(*s, height as int, width as int, k).1,
{
    let n = coordinate_count(s, height, width);
    let mut positions: Vec<(usize, usize)> = Vec::new();
    for k in 0..n
        invariant
            n == coordinate_count_spec(*s, height as int, width as int),
            height * width <= usize::MAX,
            positions.len() == k,
            forall|j: int|
                0 <= j < k ==> (#[trigger] positions[j]).0 == coordinate_spec(
                    *s,
                    height as int,
                    width as int,
                    j,
                ).0 && positions[j].1 == coordinate_spec(*s, height as int, width as int, j).1,
    {
        let rc = coordinate_at(s, height, width, k);
        positions.push(rc);
    }
    positions
}

/// The traversal patterns by their wave names.
#[derive(Clone, Copy, Debug, PartialEq, Eq, Structural)]
pub enum WaveFunction {
    Horizontal,
    Vertical,
    DiagonalRight,
    DiagonalLeft,
    ZigZagHorizontal,
    ZigZagVertical,
    Sinusoidal,
}

impl WaveFunction {
    /// Whether `s` is the strategy this wave stands for: horizontal is left to
    /// right, vertical top to bottom, and the sinusoid samples `sine_columns`.
    pub open spec fn stands_for(self, s: TraversalStrategy, sine_columns: Seq<usize>) -> bool {
        match self {
            WaveFunction::Horizontal => s is LeftToRight,
            WaveFunction::Vertical => s is TopToBottom,
            WaveFunction::DiagonalRight => s is DiagonalRight,
            WaveFunction::DiagonalLeft => s is DiagonalLeft,
            WaveFunction::ZigZagHorizontal => s is ZigZagHorizontal,
            WaveFunction::ZigZagVertical => s is ZigZagVertical,
            WaveFunction::Sinusoidal => s matches TraversalStrategy::Sinusoidal(c) && c@
                == sine_columns,
        }
    }

    /// The strategy this wave stands for; `sine_columns` is used by the
    /// sinusoid alone.
    pub fn strategy(&self, sine_columns: Vec<usize>) -> (s: TraversalStrategy)
        ensures
            self.stands_for(s, sine_columns@),
    {
        match self {
            WaveFunction::Horizontal => TraversalStrategy::LeftToRight,
            WaveFunction::Vertical => TraversalStrategy::TopToBottom,
            WaveFunction::DiagonalRight => TraversalStrategy::DiagonalRight,
            WaveFunction::DiagonalLeft => TraversalStrategy::DiagonalLeft,
            WaveFunction::ZigZagHorizontal => TraversalStrategy::ZigZagHorizontal,
            WaveFunction::ZigZagVertical => TraversalStrategy::ZigZagVertical,
            WaveFunction::Sinusoidal => TraversalStrategy::Sinusoidal(sine_columns),
        }
    }

    /// The coordinates `(row, column)` this wave visits on a `rows` x `cols`
    /// image, in order.
    pub fn traverse(&self, rows: usize, cols: usize, sine_columns: Vec<usize>) -> (positions: Vec<
        (usize, usize),
    >)
        requires
            rows * cols <= usize::MAX,
        ensures
            exists|s: TraversalStrategy|
                #[trigger] self.stands_for(s, sine_columns@) && positions.len()
                    == coordinate_count_spec(s, rows as int, cols as int) && forall|k: int|
                    0 <= k < positions.len() ==> (#[trigger] positions[k]).0 == coordinate_spec(
                        s,
                        rows as int,
                        cols as int,
                        k,
                    ).0 && positions[k].1 == coordinate_spec(s, rows as int, cols as int, k).1,
    {
        let s = self.strategy(sine_columns);
        let positions = traverse(&s, rows, cols);
        assert(self.stands_for(s, sine_columns@));
        positions
    }
}

} // verus!

//! Projection of the hexagonal board onto a fixed-cell character grid.
//!
//! Each board coordinate is mapped to the origin of a fixed-size screen
//! cell in a flat-topped hex layout: increasing `q` shifts a cell right and
//! half a cell down, increasing `r` shifts it straight down. The projector
//! emits one paint command per coordinate, in row-major order (`r`
//! ascending, then `q` ascending), skipping and counting cells whose
//! footprint would leave the canvas, and reports the total vertical extent
//! of the rendered board.

use vstd::prelude::*;
use vstd::math::abs;
use crate::coordinates::{
    HexCoord, HexBoard, TileColor, board_color, in_board, axis_lo, axis_hi, double_count,
    lemma_double_count_step, lemma_double_count_empty, lemma_double_count_total,
    lemma_in_board_bounded, SIDE_LIMIT,
};

verus! {

/// Width of one rendered cell, in character columns.
pub const CELL_WIDTH: i32 = 9;

/// Height of one rendered cell, in character rows.
pub const CELL_HEIGHT: i32 = 3;

/// Bound on margins and canvas extents, loose enough for any terminal and
/// tight enough that every screen position fits in `i32`.
pub const LAYOUT_LIMIT: i32 = 0x0010_0000;

/// Margins and canvas limits of one rendering surface.
#[derive(Debug, Clone, Copy, PartialEq, Eq, Structural)]
pub struct LayoutConfig {
    pub x_margin: i32,
    pub y_margin: i32,
    pub canvas_width: i32,
    pub canvas_height: i32,
}

impl LayoutConfig {
    /// Margins and canvas extents are non-negative and small enough that
    /// no screen position can overflow.
    pub open spec fn wf(self) -> bool {
        &&& 0 <= self.x_margin <= LAYOUT_LIMIT
        &&& 0 <= self.y_margin <= LAYOUT_LIMIT
        &&& 0 <= self.canvas_width <= LAYOUT_LIMIT
        &&& 0 <= self.canvas_height <= LAYOUT_LIMIT
    }
}

/// One instruction to the external cell painter: paint a `width` by
/// `height` cell at `(x, y)` in the background color of the tile, with a
/// dark or light foreground for contrast.
#[derive(Debug, Clone, Copy, PartialEq, Eq, Structural)]
pub struct PaintCommand {
    pub x: i32,
    pub y: i32,
    pub width: i32,
    pub height: i32,
    pub coord: HexCoord,
    pub background: TileColor,
    pub dark_foreground: bool,
}

/// The screen column of a coordinate's cell: each column of the board
/// advances the cell by three quarters of a cell width,
/// `CELL_WIDTH * 3 / 4 == 6` columns.
pub open spec fn spec_screen_x(cfg: LayoutConfig, n: int, c: HexCoord) -> int {
    cfg.x_margin + 6 * (c.q + (n - 1))
}

/// The screen row of a coordinate's cell: each row of the board advances
/// the cell by a full cell height of `CELL_HEIGHT == 3` rows, each column
/// by half a cell height, `CELL_HEIGHT / 2 == 1` row.
pub open spec fn spec_screen_y(cfg: LayoutConfig, n: int, c: HexCoord) -> int {
    cfg.y_margin + 3 * (c.r + (n - 1)) + (c.q + (n - 1))
}

/// Whether the whole footprint of a coordinate's cell lies on the canvas.
pub open spec fn in_canvas(cfg: LayoutConfig, n: int, c: HexCoord) -> bool {
    spec_screen_x(cfg, n, c) + CELL_WIDTH <= cfg.canvas_width && spec_screen_y(cfg, n, c)
        + CELL_HEIGHT <= cfg.canvas_height
}

/// Display-contrast policy: light tiles take a dark foreground, medium and
/// dark tiles a light one.
pub open spec fn wants_dark_foreground(color: TileColor) -> bool {
    color == TileColor::Light
}

/// The paint command for one board coordinate.
pub open spec fn cmd_of(cfg: LayoutConfig, n: int, c: HexCoord) -> PaintCommand {
    PaintCommand {
        x: spec_screen_x(cfg, n, c) as i32,
        y: spec_screen_y(cfg, n, c) as i32,
        width: CELL_WIDTH,
        height: CELL_HEIGHT,
        coord: c,
        background: board_color(n, c),
        dark_foreground: wants_dark_foreground(board_color(n, c)),
    }
}

/// The on-canvas paint commands of row `r`, with `q` ascending from
/// `axis_lo(n, r)` up to (excluding) `q_end`.
pub open spec fn paint_row(cfg: LayoutConfig, n: int, r: int, q_end: int) -> Seq<PaintCommand>
    decreases q_end - axis_lo(n, r),
{
    if q_end <= axis_lo(n, r) {
        Seq::empty()
    } else {
        let c = HexCoord { q: (q_end - 1) as i32, r: r as i32 };
        paint_row(cfg, n, r, q_end - 1) + (if in_canvas(cfg, n, c) {
            seq![cmd_of(cfg, n, c)]
        } else {
            Seq::empty()
        })
    }
}

/// The on-canvas paint commands of all rows below `r_end`, in paint order:
/// `r` ascending, and `q` ascending within each row.
pub open spec fn paint_upto(cfg: LayoutConfig, n: int, r_end: int) -> Seq<PaintCommand>
    decreases r_end + n,
{
    if r_end <= -(n - 1) {
        Seq::empty()
    } else {
        paint_upto(cfg, n, r_end - 1) + paint_row(cfg, n, r_end - 1, axis_hi(n, r_end - 1) + 1)
    }
}

/// The full paint sequence of a board of side length `n`: a function of the
/// configuration and the board alone, so rendering is reproducible.
pub open spec fn paint_plan(cfg: LayoutConfig, n: int) -> Seq<PaintCommand> {
    paint_upto(cfg, n, n)
}

/// The vertical extent of the rendered board: the largest `y` any cell
/// reaches plus the cell height, attained at the bottommost coordinate
/// `(0, n - 1)`, whose cell sits `3 * (2 * (n - 1)) + (n - 1)` rows below
/// the margin.
pub open spec fn spec_bottom(cfg: LayoutConfig, n: int) -> int {
    cfg.y_margin + 7 * (n - 1) + CELL_HEIGHT
}

/// No cell of the board reaches below `spec_bottom`.
pub proof fn lemma_bottom_covers(cfg: LayoutConfig, n: int, c: HexCoord)
    requires
        in_board(n, c),
    ensures
        spec_screen_y(cfg, n, c) + CELL_HEIGHT <= spec_bottom(cfg, n),
{
    assert(c.q + c.r <= n - 1);
}

/// The bottommost coordinate `(0, n - 1)` attains `spec_bottom` exactly.
pub proof fn lemma_bottom_attained(cfg: LayoutConfig, n: int)
    requires
        1 <= n <= SIDE_LIMIT,
    ensures
        ({
            let c = HexCoord { q: 0, r: (n - 1) as i32 };
            in_board(n, c) && spec_screen_y(cfg, n, c) + CELL_HEIGHT == spec_bottom(cfg, n)
        }),
{
}

/// Every command of one row carries that row's `r`, a `q` within the row's
/// range, and the row is sorted by `q` ascending.
pub proof fn lemma_paint_row_sorted(cfg: LayoutConfig, n: int, r: int, q_end: int)
    requires
        1 <= n <= SIDE_LIMIT,
        -(n - 1) <= r <= n - 1,
        axis_lo(n, r) <= q_end <= axis_hi(n, r) + 1,
    ensures
        forall|k: int|
            0 <= k < paint_row(cfg, n, r, q_end).len() ==> (#[trigger] paint_row(
                cfg,
                n,
                r,
                q_end,
            )[k]).coord.r == r && axis_lo(n, r) <= paint_row(cfg, n, r, q_end)[k].coord.q < q_end,
        forall|i: int, j: int|
            0 <= i < j < paint_row(cfg, n, r, q_end).len() ==> (#[trigger] paint_row(
                cfg,
                n,
                r,
                q_end,
            )[i]).coord.q < (#[trigger] paint_row(cfg, n, r, q_end)[j]).coord.q,
    decreases q_end - axis_lo(n, r),
{
    if axis_lo(n, r) < q_end {
        lemma_paint_row_sorted(cfg, n, r, q_end - 1);
    }
}

/// The paint sequence is sorted by `(r, q)` ascending: row-major, top to
/// bottom, then left to right, and every command lies in rows below `r_end`.
pub proof fn lemma_paint_upto_sorted(cfg: LayoutConfig, n: int, r_end: int)
    requires
        1 <= n <= SIDE_LIMIT,
        r_end <= n,
    ensures
        forall|k: int|
            0 <= k < paint_upto(cfg, n, r_end).len() ==> (#[trigger] paint_upto(
                cfg,
                n,
                r_end,
            )[k]).coord.r < r_end,
        forall|i: int, j: int|
            0 <= i < j < paint_upto(cfg, n, r_end).len() ==> ((#[trigger] paint_upto(
                cfg,
                n,
                r_end,
            )[i]).coord.r < (#[trigger] paint_upto(cfg, n, r_end)[j]).coord.r || (paint_upto(
                cfg,
                n,
                r_end,
            )[i].coord.r == paint_upto(cfg, n, r_end)[j].coord.r && paint_upto(
                cfg,
                n,
                r_end,
            )[i].coord.q < paint_upto(cfg, n, r_end)[j].coord.q)),
    decreases r_end + n,
{
    if -(n - 1) < r_end {
        lemma_paint_upto_sorted(cfg, n, r_end - 1);
        lemma_paint_row_sorted(cfg, n, r_end - 1, axis_hi(n, r_end - 1) + 1);
    }
}

/// Paint order: the full paint sequence of a board is sorted by `(r, q)`
/// ascending.
pub proof fn lemma_paint_plan_sorted(cfg: LayoutConfig, n: int)
    requires
        1 <= n <= SIDE_LIMIT,
    ensures
        forall|i: int, j: int|
            0 <= i < j < paint_plan(cfg, n).len() ==> ((#[trigger] paint_plan(cfg, n)[i]).coord.r
                < (#[trigger] paint_plan(cfg, n)[j]).coord.r || (paint_plan(cfg, n)[i].coord.r
                == paint_plan(cfg, n)[j].coord.r && paint_plan(cfg, n)[i].coord.q < paint_plan(
                cfg,
                n,
            )[j].coord.q)),
{
    lemma_paint_upto_sorted(cfg, n, n);
}

/// Rendering is order-stable: the paint sequence is a function of the
/// configuration and the board size, so two renderings of the same board
/// with the same configuration issue identical commands in identical order.
pub proof fn lemma_layout_deterministic(
    cfg: LayoutConfig,
    n: int,
    first: Seq<PaintCommand>,
    second: Seq<PaintCommand>,
)
    requires
        first == paint_plan(cfg, n),
        second == paint_plan(cfg, n),
    ensures
        first == second,
{
}

/// `double_count` never leaves a range comfortably inside `usize`, so the
/// skipped-cell counter cannot overflow.
pub proof fn lemma_double_count_small(max: int, upto: int)
    requires
        0 <= max <= SIDE_LIMIT,
        -max <= upto <= max + 1,
    ensures
        0 <= double_count(max, upto) <= 0x7000_0000,
{
    if upto <= 0 {
        assert(0 <= (upto + max) * (upto + 3 * max + 1) <= 0x7000_0000) by (nonlinear_arith)
            requires
                0 <= max <= 0x4000,
                -max <= upto <= 0,
        ;
    } else {
        assert(0 <= 3 * max * max + max + 4 * max * upto + 3 * upto - upto * upto
            <= 0x7000_0000) by (nonlinear_arith)
            requires
                0 <= max <= 0x4000,
                0 < upto <= max + 1,
        ;
    }
}

/// The outcome of one render pass: the paint commands in paint order, the
/// total vertical extent consumed, and how many cells the canvas clamp
/// skipped.
#[derive(Debug)]
pub struct RenderPlan {
    pub commands: Vec<PaintCommand>,
    pub bottom: i32,
    pub skipped: usize,
}

/// Maps a board onto screen cells and orders the paint calls; the actual
/// drawing is delegated to an external cell painter that consumes the
/// emitted commands.
#[derive(Debug, Clone, Copy)]
pub struct BoardLayoutProjector {
    pub config: LayoutConfig,
}

impl BoardLayoutProjector {
    pub fn new(config: LayoutConfig) -> (p: BoardLayoutProjector)
        requires
            config.wf(),
        ensures
            p.config == config,
    {
        BoardLayoutProjector { config }
    }

    /// One render pass: the paint commands of every board coordinate whose
    /// cell fits the canvas, in row-major paint order, together with the
    /// count of skipped cells and the total vertical extent of the board.
    pub fn project(&self, board: &HexBoard) -> (plan: RenderPlan)
        requires
            self.config.wf(),
            board.wf(),
        ensures
            plan.commands@ == paint_plan(self.config, board.side()),
            plan.commands@.len() + plan.skipped == 3 * board.side() * board.side() - 3
                * board.side() + 1,
            plan.bottom == spec_bottom(self.config, board.side()),
    {
        let ghost n = board.side();
        let ghost cfg = self.config;
        let side = board.side_length();
        let max = side - 1;
        let mut commands: Vec<PaintCommand> = Vec::new();
        let mut skipped: usize = 0;
        let mut bottom: i32 = 0;
        let mut r: i32 = -max;
        proof {
            lemma_double_count_empty(max as int);
        }
        while r <= max
            invariant
                cfg == self.config,
                cfg.wf(),
                board.wf(),
                n == board.side(),
                1 <= n <= SIDE_LIMIT,
                max == n - 1,
                -max <= r <= max + 1,
                commands@ == paint_upto(cfg, n, r as int),
                2 * (commands@.len() + skipped as int) == double_count(max as int, r as int),
                0 <= bottom <= spec_bottom(cfg, n),
                r > -max ==> bottom >= spec_screen_y(
                    cfg,
                    n,
                    HexCoord { q: axis_hi(n, r - 1) as i32, r: (r - 1) as i32 },
                ) + CELL_HEIGHT,
            decreases max + 1 - r,
        {
            let q_min = if -max >= -r - max {
                -max
            } else {
                -r - max
            };
            let q_cap = if max <= -r + max {
                max
            } else {
                -r + max
            };
            let mut q: i32 = q_min;
            while q <= q_cap
                invariant
                    cfg == self.config,
                    cfg.wf(),
                    board.wf(),
                    n == board.side(),
                    1 <= n <= SIDE_LIMIT,
                    max == n - 1,
                    -max <= r <= max,
                    q_min == axis_lo(n, r as int),
                    q_cap == axis_hi(n, r as int),
                    q_min <= q <= q_cap + 1,
                    commands@ == paint_upto(cfg, n, r as int) + paint_row(
                        cfg,
                        n,
                        r as int,
                        q as int,
                    ),
                    2 * (commands@.len() + skipped as int) == double_count(max as int, r as int)
                        + 2 * (q - q_min),
                    0 <= bottom <= spec_bottom(cfg, n),
                    q > q_min ==> bottom >= spec_screen_y(
                        cfg,
                        n,
                        HexCoord { q: (q - 1) as i32, r },
                    ) + CELL_HEIGHT,
                decreases q_cap + 1 - q,
            {
                let c = HexCoord { q, r };
                proof {
                    assert(in_board(n, c));
                    lemma_in_board_bounded(n, c);
                }
                // 6 columns per board column (CELL_WIDTH * 3 / 4), 3 rows per
                // board row (CELL_HEIGHT), 1 row per board column (CELL_HEIGHT / 2)
                let x = self.config.x_margin + 6 * (q + max);
                let y = self.config.y_margin + 3 * (r + max) + (q + max);
                let cell_bottom = y + CELL_HEIGHT;
                proof {
                    lemma_bottom_covers(cfg, n, c);
                }
                if bottom < cell_bottom {
                    bottom = cell_bottom;
                }
                if x + CELL_WIDTH <= self.config.canvas_width && y + CELL_HEIGHT
                    <= self.config.canvas_height {
                    let background = board.tile_color(&c).unwrap();
                    let dark_foreground = background == TileColor::Light;
                    commands.push(
                        PaintCommand {
                            x,
                            y,
                            width: CELL_WIDTH,
                            height: CELL_HEIGHT,
                            coord: c,
                            background,
                            dark_foreground,
                        },
                    );
                } else {
                    proof {
                        lemma_double_count_small(max as int, r as int);
                    }
                    skipped = skipped + 1;
                }
                proof {
                    assert(paint_row(cfg, n, r as int, q + 1) == paint_row(cfg, n, r as int, q as int)
                        + (if in_canvas(cfg, n, c) {
                        seq![cmd_of(cfg, n, c)]
                    } else {
                        Seq::<PaintCommand>::empty()
                    }));
                    assert(commands@ =~= paint_upto(cfg, n, r as int) + paint_row(
                        cfg,
                        n,
                        r as int,
                        q + 1,
                    ));
                }
                q = q + 1;
            }
            proof {
                assert(paint_upto(cfg, n, r + 1) == paint_upto(cfg, n, r as int) + paint_row(
                    cfg,
                    n,
                    r as int,
                    axis_hi(n, r as int) + 1,
                ));
                lemma_double_count_step(max as int, r as int);
                assert(q_cap + 1 - q_min == 2 * max + 1 - abs(r as int));
            }
            r = r + 1;
        }
        proof {
            lemma_double_count_total(max as int);
            assert(commands@ == paint_plan(cfg, n));
            assert(axis_hi(n, max as int) == 0);
            lemma_bottom_attained(cfg, n);
            assert(bottom == spec_bottom(cfg, n));
        }
        RenderPlan { commands, bottom, skipped }
    }
}

} // verus!

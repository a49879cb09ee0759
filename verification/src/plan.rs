//! The render plan: everything the drawing pass needs, computed and checked
//! ahead of it.
//!
//! A plan lists the horizontal and vertical grid lines at the offsets the
//! layout formulas give, and one command per cell, in row-major order: the
//! cell's content rectangle (one pixel inside its grid lines), whether it
//! belongs to the header row, and its parsed directive state.  Executing the
//! plan is plain pixel work: fill the canvas white, stroke the lines, and
//! for each cell fill its rectangle and draw its display text, rotated where
//! the style asks for it.

use vstd::prelude::*;

use crate::layout::x_at;
use crate::layout::x_at_spec;
use crate::layout::y_at;
use crate::layout::y_at_spec;
use crate::layout::table_width;
use crate::layout::table_width_spec;
use crate::layout::table_height;
use crate::layout::table_height_spec;
use crate::layout::RenderConfig;
use crate::layout::MARGIN_LEFT;
use crate::layout::MARGIN_TOP;
use crate::style::parse_directives;
use crate::style::parse_spec;
use crate::style::CellStyle;
use crate::table::Table;

verus! {

/// A horizontal grid line from `(x0, y)` to `(x1, y)`.
#[derive(Clone, Copy, Debug, PartialEq, Eq, Structural)]
pub struct HLine {
    /// Vertical position of the line.
    pub y: u32,
    /// Where the line starts.
    pub x0: u32,
    /// Where the line ends.
    pub x1: u32,
}

/// A vertical grid line from `(x, y0)` to `(x, y1)`.
#[derive(Clone, Copy, Debug, PartialEq, Eq, Structural)]
pub struct VLine {
    /// Horizontal position of the line.
    pub x: u32,
    /// Where the line starts.
    pub y0: u32,
    /// Where the line ends.
    pub y1: u32,
}

/// A cell's content rectangle, one pixel inside its grid lines.
#[derive(Clone, Copy, Debug, PartialEq, Eq, Structural)]
pub struct CellBox {
    /// Left edge of the content area.
    pub x: u32,
    /// Top edge of the content area.
    pub y: u32,
    /// Width of the content area.
    pub width: u32,
    /// Height of the content area.
    pub height: u32,
}

/// Everything the drawing pass needs for one cell.
#[derive(Debug, Clone)]
pub struct CellCmd {
    /// Where the cell's content goes.
    pub bx: CellBox,
    /// The cell sits in the header row, so its defaults differ.
    pub is_header: bool,
    /// The cell's parsed directive state and display text.
    pub style: CellStyle,
}

/// The full drawing plan for one table.
#[derive(Debug)]
pub struct RenderPlan {
    /// Width of the output image.
    pub width: u32,
    /// Height of the output image.
    pub height: u32,
    /// The horizontal grid lines, top to bottom.
    pub hlines: Vec<HLine>,
    /// The vertical grid lines, left to right.
    pub vlines: Vec<VLine>,
    /// One command per cell: `cells[i][j]` is grid row `i`, column `j`, and
    /// row `0` is the header row.
    pub cells: Vec<Vec<CellCmd>>,
}

/// The command for grid cell `(i, j)` is correct: its rectangle sits one
/// pixel inside the cell's grid lines and its style is the parse of the
/// cell's raw text.
pub open spec fn cell_cmd_ok(t: Table, cfg: RenderConfig, i: int, j: int, c: CellCmd) -> bool {
    &&& c.bx.x == x_at_spec(cfg, j) + 1
    &&& c.bx.y == y_at_spec(cfg, i) + 1
    &&& c.bx.width == x_at_spec(cfg, j + 1) - x_at_spec(cfg, j) - 1
    &&& c.bx.height == y_at_spec(cfg, i + 1) - y_at_spec(cfg, i) - 1
    &&& c.is_header == (i == 0)
    &&& c.style@ == parse_spec(t.cell_text_spec(i, j))
}

/// The sizing constraints under which a plan can be built at all: positive
/// row heights and column widths, and grid offsets that fit the pixel
/// coordinate space.
pub open spec fn plan_ready_spec(t: Table, cfg: RenderConfig) -> bool {
    &&& cfg.column_width >= 1
    &&& cfg.row_height >= 1
    &&& cfg.first_column_width >= 1
    &&& cfg.first_row_height >= 1
    &&& x_at_spec(cfg, t.ncols_spec()) <= u32::MAX
    &&& y_at_spec(cfg, t.nrows_spec()) <= u32::MAX
}

/// Vertical grid lines move strictly right as `j` grows.
proof fn lemma_x_mono(cfg: RenderConfig, a: int, b: int)
    requires
        0 <= a < b,
        cfg.column_width >= 1,
        cfg.first_column_width >= 1,
    ensures
        x_at_spec(cfg, a) < x_at_spec(cfg, b),
{
    let cw = cfg.column_width as int;
    if a == 0 {
        assert((b - 1) * cw >= 0) by (nonlinear_arith)
            requires
                b >= 1,
                cw >= 0,
        ;
        assert(b * cw == (b - 1) * cw + cw) by (nonlinear_arith);
    } else {
        assert(b * cw - a * cw == (b - a) * cw) by (nonlinear_arith);
        assert((b - a) * cw >= (b - a) * 1) by (nonlinear_arith)
            requires
                b - a >= 1,
                cw >= 1,
        ;
    }
}

/// Horizontal grid lines move strictly down as `i` grows.
proof fn lemma_y_mono(cfg: RenderConfig, a: int, b: int)
    requires
        0 <= a < b,
        cfg.row_height >= 1,
        cfg.first_row_height >= 1,
    ensures
        y_at_spec(cfg, a) < y_at_spec(cfg, b),
{
    let rh = cfg.row_height as int;
    if a == 0 {
        assert((b - 1) * rh >= 0) by (nonlinear_arith)
            requires
                b >= 1,
                rh >= 0,
        ;
        assert(b * rh == (b - 1) * rh + rh) by (nonlinear_arith);
    } else {
        assert(b * rh - a * rh == (b - a) * rh) by (nonlinear_arith);
        assert((b - a) * rh >= (b - a) * 1) by (nonlinear_arith)
            requires
                b - a >= 1,
                rh >= 1,
        ;
    }
}

/// Whether a plan can be built for this table and configuration: the
/// drawing pass must check this before asking for the plan.
pub fn plan_ready(table: &Table, cfg: &RenderConfig) -> (r: bool)
    requires
        table.wf(),
        table.rows@.len() + 1 < usize::MAX,
    ensures
        r == plan_ready_spec(*table, *cfg),
{
    if cfg.column_width < 1 || cfg.row_height < 1 || cfg.first_column_width < 1
        || cfg.first_row_height < 1 {
        return false;
    }
    let ncols = table.ncols();
    let nrows = table.nrows();
    proof {
        let n = ncols as int;
        let cw = cfg.column_width as int;
        assert((n - 1) * cw == n * cw - cw) by (nonlinear_arith);
        assert((n - 1) * cw >= 0) by (nonlinear_arith)
            requires
                n >= 1,
                cw >= 0,
        ;
        let m = nrows as int;
        let rh = cfg.row_height as int;
        assert((m - 1) * rh == m * rh - rh) by (nonlinear_arith);
        assert((m - 1) * rh >= 0) by (nonlinear_arith)
            requires
                m >= 1,
                rh >= 0,
        ;
        assert((n - 1) * cw <= (usize::MAX as int) * (u32::MAX as int)) by (nonlinear_arith)
            requires
                0 <= n - 1 <= usize::MAX as int,
                0 <= cw <= u32::MAX as int,
        ;
        assert((m - 1) * rh <= (usize::MAX as int) * (u32::MAX as int)) by (nonlinear_arith)
            requires
                0 <= m - 1 <= usize::MAX as int,
                0 <= rh <= u32::MAX as int,
        ;
    }
    let xmax: u128 = MARGIN_LEFT as u128 + cfg.first_column_width as u128 + (ncols as u128 - 1)
        * cfg.column_width as u128;
    let ymax: u128 = MARGIN_TOP as u128 + cfg.first_row_height as u128 + (nrows as u128 - 1)
        * cfg.row_height as u128;
    xmax <= u32::MAX as u128 && ymax <= u32::MAX as u128
}

/// For a cell drawn rotated, the scratch buffer the text is first drawn
/// into: its width and height are the cell rectangle's height and width,
/// swapped, so that a quarter-turn rotation fills the cell exactly.
pub fn rotated_scratch_size(c: &CellCmd) -> (r: (u32, u32))
    ensures
        r.0 == c.bx.height,
        r.1 == c.bx.width,
{
    (c.bx.height, c.bx.width)
}

/// Builds the full drawing plan: the image size, one horizontal line per
/// grid row boundary and one vertical line per grid column boundary at the
/// offsets the layout formulas give, and one correct command per cell.
#[verifier::loop_isolation(false)]
pub fn build_plan(table: &Table, cfg: &RenderConfig) -> (plan: RenderPlan)
    requires
        table.wf(),
        table.rows@.len() + 1 < usize::MAX,
        plan_ready_spec(*table, *cfg),
    ensures
        plan.width == cfg.width,
        plan.height == cfg.height,
        plan.hlines@.len() == table.nrows_spec() + 1,
        forall|i: int|
            0 <= i <= table.nrows_spec() ==> {
                &&& (#[trigger] plan.hlines@[i]).y == y_at_spec(*cfg, i)
                &&& plan.hlines@[i].x0 == MARGIN_LEFT
                &&& plan.hlines@[i].x1 == MARGIN_LEFT + table_width_spec(
                    *cfg,
                    table.ncols_spec(),
                )
            },
        plan.vlines@.len() == table.ncols_spec() + 1,
        forall|j: int|
            0 <= j <= table.ncols_spec() ==> {
                &&& (#[trigger] plan.vlines@[j]).x == x_at_spec(*cfg, j)
                &&& plan.vlines@[j].y0 == MARGIN_TOP
                &&& plan.vlines@[j].y1 == MARGIN_TOP + table_height_spec(
                    *cfg,
                    table.nrows_spec(),
                )
            },
        plan.cells@.len() == table.nrows_spec(),
        forall|i: int|
            0 <= i < table.nrows_spec() ==> (#[trigger] plan.cells@[i])@.len()
                == table.ncols_spec(),
        forall|i: int, j: int|
            0 <= i < table.nrows_spec() && 0 <= j < table.ncols_spec() ==> cell_cmd_ok(
                *table,
                *cfg,
                i,
                j,
                #[trigger] plan.cells@[i]@[j],
            ),
{
    let nrows = table.nrows();
    let ncols = table.ncols();
    let tw = table_width(cfg, ncols);
    let th = table_height(cfg, nrows);
    proof {
        assert(MARGIN_LEFT + table_width_spec(*cfg, ncols as int) == x_at_spec(
            *cfg,
            ncols as int,
        ));
        assert(MARGIN_TOP + table_height_spec(*cfg, nrows as int) == y_at_spec(
            *cfg,
            nrows as int,
        ));
    }

    let mut hlines: Vec<HLine> = Vec::new();
    let mut i: usize = 0;
    while i <= nrows
        invariant
            i <= nrows + 1,
            hlines@.len() == i,
            forall|k: int|
                0 <= k < i ==> {
                    &&& (#[trigger] hlines@[k]).y == y_at_spec(*cfg, k)
                    &&& hlines@[k].x0 == MARGIN_LEFT
                    &&& hlines@[k].x1 == MARGIN_LEFT + table_width_spec(*cfg, ncols as int)
                },
        decreases nrows + 1 - i,
    {
        proof {
            if (i as int) < nrows as int {
                lemma_y_mono(*cfg, i as int, nrows as int);
            }
        }
        let y = y_at(cfg, i);
        hlines.push(HLine { y, x0: MARGIN_LEFT, x1: MARGIN_LEFT + tw });
        i = i + 1;
    }

    proof {
        let n = ncols as int;
        let cw = cfg.column_width as int;
        assert((n - 1) * cw >= (n - 1) * 1) by (nonlinear_arith)
            requires
                n >= 1,
                cw >= 1,
        ;
        assert((n - 1) * cw == n * cw - cw) by (nonlinear_arith);
        assert(n <= u32::MAX);
    }
    let mut vlines: Vec<VLine> = Vec::new();
    let mut j: usize = 0;
    while j <= ncols
        invariant
            j <= ncols + 1,
            vlines@.len() == j,
            forall|k: int|
                0 <= k < j ==> {
                    &&& (#[trigger] vlines@[k]).x == x_at_spec(*cfg, k)
                    &&& vlines@[k].y0 == MARGIN_TOP
                    &&& vlines@[k].y1 == MARGIN_TOP + table_height_spec(*cfg, nrows as int)
                },
        decreases ncols + 1 - j,
    {
        proof {
            if (j as int) < ncols as int {
                lemma_x_mono(*cfg, j as int, ncols as int);
            }
        }
        let x = x_at(cfg, j);
        vlines.push(VLine { x, y0: MARGIN_TOP, y1: MARGIN_TOP + th });
        j = j + 1;
    }

    let mut cells: Vec<Vec<CellCmd>> = Vec::new();
    let mut i: usize = 0;
    while i < nrows
        invariant
            i <= nrows,
            cells@.len() == i,
            forall|k: int| 0 <= k < i ==> (#[trigger] cells@[k])@.len() == ncols as int,
            forall|k: int, q: int|
                0 <= k < i && 0 <= q < ncols as int ==> cell_cmd_ok(
                    *table,
                    *cfg,
                    k,
                    q,
                    #[trigger] cells@[k]@[q],
                ),
        decreases nrows - i,
    {
        proof {
            lemma_y_mono(*cfg, i as int, i + 1);
            if i + 1 < nrows as int {
                lemma_y_mono(*cfg, i + 1, nrows as int);
            }
        }
        let y0 = y_at(cfg, i);
        let y1 = y_at(cfg, i + 1);
        let mut row: Vec<CellCmd> = Vec::new();
        let mut j: usize = 0;
        while j < ncols
            invariant
                j <= ncols,
                i < nrows,
                row@.len() == j,
                y0 == y_at_spec(*cfg, i as int),
                y1 == y_at_spec(*cfg, i + 1),
                forall|q: int|
                    0 <= q < j ==> cell_cmd_ok(*table, *cfg, i as int, q, #[trigger] row@[q]),
            decreases ncols - j,
        {
            proof {
                lemma_x_mono(*cfg, j as int, j + 1);
                if j + 1 < ncols as int {
                    lemma_x_mono(*cfg, j + 1, ncols as int);
                }
                lemma_y_mono(*cfg, 0, i + 1);
                lemma_x_mono(*cfg, 0, j + 1);
            }
            let x0 = x_at(cfg, j);
            let x1 = x_at(cfg, j + 1);
            let text: &String = if i == 0 {
                &table.header[j]
            } else {
                &table.rows[i - 1][j]
            };
            let style = parse_directives(text.as_str());
            row.push(
                CellCmd {
                    bx: CellBox { x: x0 + 1, y: y0 + 1, width: x1 - x0 - 1, height: y1 - y0 - 1 },
                    is_header: i == 0,
                    style,
                },
            );
            j = j + 1;
        }
        cells.push(row);
        i = i + 1;
    }

    RenderPlan { width: cfg.width, height: cfg.height, hlines, vlines, cells }
}

} // verus!

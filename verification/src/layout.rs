//! Grid geometry: pixel offsets of grid lines and cell rectangles, computed
//! from the margin constants and the configured row heights and column widths.

use vstd::prelude::*;

verus! {

/// Blank space kept to the left of the table, in pixels.
pub const MARGIN_LEFT: u32 = 5;

/// Blank space kept to the right of the table, in pixels.
pub const MARGIN_RIGHT: u32 = 5;

/// Blank space kept above the table, in pixels.
pub const MARGIN_TOP: u32 = 5;

/// Offset of a cell's text from the cell's left edge, in pixels.
pub const INTRACELL_MARGIN_LEFT: u32 = 2;

/// Offset of a cell's text from the cell's top edge, in pixels.
pub const INTRACELL_MARGIN_TOP: u32 = 2;

/// Sizing parameters for the rendered table.
#[derive(Clone, Copy, Debug)]
pub struct RenderConfig {
    /// Width of the whole output image, in pixels.
    pub width: u32,
    /// Height of the whole output image, in pixels.
    pub height: u32,
    /// Height of the header row, in pixels.
    pub first_row_height: u32,
    /// Height of every row but the header, in pixels.
    pub row_height: u32,
    /// Width of the first column, in pixels.
    pub first_column_width: u32,
    /// Width of every column but the first, in pixels.
    pub column_width: u32,
}

/// Pixel x-offset of vertical grid line `j`: the first column may be wider
/// than the rest, so every line from the second one on is shifted by the
/// difference.
pub open spec fn x_at_spec(cfg: RenderConfig, j: int) -> int {
    MARGIN_LEFT + j * cfg.column_width + if j >= 1 {
        cfg.first_column_width - cfg.column_width
    } else {
        0
    }
}

/// Pixel y-offset of horizontal grid line `i`, with the header row's height
/// possibly differing from the rest.
pub open spec fn y_at_spec(cfg: RenderConfig, i: int) -> int {
    MARGIN_TOP + i * cfg.row_height + if i >= 1 {
        cfg.first_row_height - cfg.row_height
    } else {
        0
    }
}

/// Total pixel width of the table's grid, from the first vertical line to the
/// last: one first column plus `ncols - 1` ordinary columns.
pub open spec fn table_width_spec(cfg: RenderConfig, ncols: int) -> int {
    ncols * cfg.column_width + cfg.first_column_width - cfg.column_width
}

/// Total pixel height of the table's grid.
pub open spec fn table_height_spec(cfg: RenderConfig, nrows: int) -> int {
    nrows * cfg.row_height + cfg.first_row_height - cfg.row_height
}

/// Pixel x-offset of vertical grid line `j`.
pub fn x_at(cfg: &RenderConfig, j: usize) -> (x: u32)
    requires
        x_at_spec(*cfg, j as int) <= u32::MAX,
    ensures
        x == x_at_spec(*cfg, j as int),
{
    if j == 0 {
        proof {
            assert(0int * cfg.column_width == 0) by (nonlinear_arith);
        }
        MARGIN_LEFT
    } else {
        proof {
            let jj = j as int;
            let cw = cfg.column_width as int;
            assert((jj - 1) * cw == jj * cw - cw) by (nonlinear_arith);
            assert((jj - 1) * cw >= 0) by (nonlinear_arith)
                requires
                    jj >= 1,
                    cw >= 0,
            ;
            assert(MARGIN_LEFT + cfg.first_column_width + (jj - 1) * cw == x_at_spec(
                *cfg,
                jj,
            ));
        }
        let v: u64 = MARGIN_LEFT as u64 + cfg.first_column_width as u64 + (j as u64 - 1)
            * cfg.column_width as u64;
        proof {
            assert(v == x_at_spec(*cfg, j as int));
        }
        v as u32
    }
}

/// Pixel y-offset of horizontal grid line `i`.
pub fn y_at(cfg: &RenderConfig, i: usize) -> (y: u32)
    requires
        y_at_spec(*cfg, i as int) <= u32::MAX,
    ensures
        y == y_at_spec(*cfg, i as int),
{
    if i == 0 {
        proof {
            assert(0int * cfg.row_height == 0) by (nonlinear_arith);
        }
        MARGIN_TOP
    } else {
        proof {
            let ii = i as int;
            let rh = cfg.row_height as int;
            assert((ii - 1) * rh == ii * rh - rh) by (nonlinear_arith);
            assert((ii - 1) * rh >= 0) by (nonlinear_arith)
                requires
                    ii >= 1,
                    rh >= 0,
            ;
            assert(MARGIN_TOP + cfg.first_row_height + (ii - 1) * rh == y_at_spec(*cfg, ii));
        }
        let v: u64 = MARGIN_TOP as u64 + cfg.first_row_height as u64 + (i as u64 - 1)
            * cfg.row_height as u64;
        proof {
            assert(v == y_at_spec(*cfg, i as int));
        }
        v as u32
    }
}

/// Total pixel width of the table's grid.
pub fn table_width(cfg: &RenderConfig, ncols: usize) -> (w: u32)
    requires
        ncols >= 1,
        table_width_spec(*cfg, ncols as int) <= u32::MAX,
    ensures
        w == table_width_spec(*cfg, ncols as int),
{
    proof {
        let n = ncols as int;
        let cw = cfg.column_width as int;
        assert((n - 1) * cw == n * cw - cw) by (nonlinear_arith);
        assert((n - 1) * cw >= 0) by (nonlinear_arith)
            requires
                n >= 1,
                cw >= 0,
        ;
        assert(cfg.first_column_width + (n - 1) * cw == table_width_spec(*cfg, n));
    }
    let v: u64 = cfg.first_column_width as u64 + (ncols as u64 - 1) * cfg.column_width as u64;
    proof {
        assert(v == table_width_spec(*cfg, ncols as int));
    }
    v as u32
}

/// Total pixel height of the table's grid.
pub fn table_height(cfg: &RenderConfig, nrows: usize) -> (h: u32)
    requires
        nrows >= 1,
        table_height_spec(*cfg, nrows as int) <= u32::MAX,
    ensures
        h == table_height_spec(*cfg, nrows as int),
{
    proof {
        let n = nrows as int;
        let rh = cfg.row_height as int;
        assert((n - 1) * rh == n * rh - rh) by (nonlinear_arith);
        assert((n - 1) * rh >= 0) by (nonlinear_arith)
            requires
                n >= 1,
                rh >= 0,
        ;
        assert(cfg.first_row_height + (n - 1) * rh == table_height_spec(*cfg, n));
    }
    let v: u64 = cfg.first_row_height as u64 + (nrows as u64 - 1) * cfg.row_height as u64;
    proof {
        assert(v == table_height_spec(*cfg, nrows as int));
    }
    v as u32
}

/// Why a configuration was rejected before any input was read.
#[derive(Clone, Copy, Debug, PartialEq, Eq, Structural)]
pub enum ConfigError {
    /// The image is too narrow to hold the left and right margins.
    WidthTooSmall,
    /// The image is too low to hold the top margin.
    HeightTooSmall,
}

/// Rejects an image size that cannot accommodate the margins, before any
/// input is read.  The width is checked first, as the error reported for a
/// configuration bad in both dimensions names the width.
pub fn validate_config(cfg: &RenderConfig) -> (r: Result<(), ConfigError>)
    ensures
        r is Ok <==> (cfg.width >= MARGIN_LEFT + MARGIN_RIGHT && cfg.height >= MARGIN_TOP),
        cfg.width < MARGIN_LEFT + MARGIN_RIGHT ==> r == Err::<(), ConfigError>(
            ConfigError::WidthTooSmall,
        ),
        cfg.width >= MARGIN_LEFT + MARGIN_RIGHT && cfg.height < MARGIN_TOP ==> r == Err::<
            (),
            ConfigError,
        >(ConfigError::HeightTooSmall),
{
    if cfg.width < MARGIN_LEFT + MARGIN_RIGHT {
        Err(ConfigError::WidthTooSmall)
    } else if cfg.height < MARGIN_TOP {
        Err(ConfigError::HeightTooSmall)
    } else {
        Ok(())
    }
}

} // verus!

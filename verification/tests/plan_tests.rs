use tablegrid::layout::RenderConfig;
use tablegrid::plan::build_plan;
use tablegrid::plan::plan_ready;
use tablegrid::plan::rotated_scratch_size;
use tablegrid::table::Table;

fn default_config() -> RenderConfig {
    RenderConfig {
        width: 1280,
        height: 720,
        first_row_height: 60,
        row_height: 16,
        first_column_width: 80,
        column_width: 60,
    }
}

fn sample_table() -> Table {
    Table {
        header: vec!["rot:A".to_string(), "h=30:B".to_string(), "C".to_string()],
        rows: vec![
            vec!["1".to_string(), "2".to_string(), "3".to_string()],
            vec!["4".to_string(), "l=40:5".to_string(), "6".to_string()],
        ],
    }
}

#[test]
fn plan_has_one_line_per_grid_boundary() {
    // Two data rows and three columns: four horizontal and four vertical
    // lines, at the offsets the layout formulas give.
    let table = sample_table();
    let cfg = default_config();
    assert!(plan_ready(&table, &cfg));
    let plan = build_plan(&table, &cfg);
    assert_eq!(plan.width, 1280);
    assert_eq!(plan.height, 720);
    assert_eq!(plan.hlines.len(), 4);
    assert_eq!(plan.vlines.len(), 4);
    let ys: Vec<u32> = plan.hlines.iter().map(|l| l.y).collect();
    assert_eq!(ys, vec![5, 65, 81, 97]);
    let xs: Vec<u32> = plan.vlines.iter().map(|l| l.x).collect();
    assert_eq!(xs, vec![5, 85, 145, 205]);
    for l in &plan.hlines {
        assert_eq!(l.x0, 5);
        assert_eq!(l.x1, 205);
    }
    for l in &plan.vlines {
        assert_eq!(l.y0, 5);
        assert_eq!(l.y1, 97);
    }
}

#[test]
fn cells_sit_one_pixel_inside_their_grid_lines() {
    let table = sample_table();
    let cfg = default_config();
    let plan = build_plan(&table, &cfg);
    assert_eq!(plan.cells.len(), 3);
    for row in &plan.cells {
        assert_eq!(row.len(), 3);
    }
    let c = &plan.cells[0][0];
    assert_eq!((c.bx.x, c.bx.y, c.bx.width, c.bx.height), (6, 6, 79, 59));
    let c = &plan.cells[1][1];
    assert_eq!((c.bx.x, c.bx.y, c.bx.width, c.bx.height), (86, 66, 59, 15));
    let c = &plan.cells[2][2];
    assert_eq!((c.bx.x, c.bx.y, c.bx.width, c.bx.height), (146, 82, 59, 15));
}

#[test]
fn cell_styles_come_from_the_directive_parser() {
    let table = sample_table();
    let cfg = default_config();
    let plan = build_plan(&table, &cfg);
    assert!(plan.cells[0][0].is_header);
    assert!(plan.cells[0][0].style.rotate);
    assert_eq!(plan.cells[0][0].style.display, "A");
    assert_eq!(plan.cells[0][1].style.hue.as_deref(), Some("30"));
    assert_eq!(plan.cells[0][1].style.display, "B");
    assert!(!plan.cells[1][0].is_header);
    assert_eq!(plan.cells[1][0].style.display, "1");
    assert_eq!(plan.cells[2][1].style.lightness.as_deref(), Some("40"));
    assert_eq!(plan.cells[2][1].style.display, "5");
}

#[test]
fn rotated_cells_use_a_swapped_scratch_buffer() {
    let table = sample_table();
    let cfg = default_config();
    let plan = build_plan(&table, &cfg);
    let c = &plan.cells[0][0];
    assert!(c.style.rotate);
    let (w, h) = rotated_scratch_size(c);
    assert_eq!(w, c.bx.height);
    assert_eq!(h, c.bx.width);
    assert_eq!((w, h), (59, 79));
}

#[test]
fn oversized_grid_is_not_ready() {
    let table = sample_table();
    let mut cfg = default_config();
    cfg.column_width = u32::MAX;
    assert!(!plan_ready(&table, &cfg));
    let mut cfg = default_config();
    cfg.row_height = 0;
    assert!(!plan_ready(&table, &cfg));
    assert!(plan_ready(&table, &default_config()));
}

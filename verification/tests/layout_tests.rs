use tablegrid::layout::table_height;
use tablegrid::layout::table_width;
use tablegrid::layout::validate_config;
use tablegrid::layout::x_at;
use tablegrid::layout::y_at;
use tablegrid::layout::ConfigError;
use tablegrid::layout::RenderConfig;

fn default_config() -> RenderConfig {
    RenderConfig {
        width: 1280,
        height: 720,
        first_row_height: 60,
        row_height: 16,
        first_column_width: 80,
        column_width: 60,
    }
}

#[test]
fn offsets_follow_the_layout_formula() {
    let cfg = default_config();
    assert_eq!(x_at(&cfg, 0), 5);
    assert_eq!(x_at(&cfg, 1), 85);
    assert_eq!(x_at(&cfg, 2), 145);
    assert_eq!(x_at(&cfg, 3), 205);
    assert_eq!(y_at(&cfg, 0), 5);
    assert_eq!(y_at(&cfg, 1), 65);
    assert_eq!(y_at(&cfg, 2), 81);
    assert_eq!(y_at(&cfg, 3), 97);
}

#[test]
fn narrow_first_column_still_follows_the_formula() {
    let mut cfg = default_config();
    cfg.first_column_width = 10;
    assert_eq!(x_at(&cfg, 0), 5);
    assert_eq!(x_at(&cfg, 1), 15);
    assert_eq!(x_at(&cfg, 2), 75);
}

#[test]
fn table_extent_counts_first_row_and_column_apart() {
    let cfg = default_config();
    assert_eq!(table_width(&cfg, 3), 200);
    assert_eq!(table_height(&cfg, 3), 92);
    assert_eq!(table_width(&cfg, 1), 80);
    assert_eq!(table_height(&cfg, 1), 60);
}

#[test]
fn config_narrower_than_margins_is_rejected() {
    let mut cfg = default_config();
    cfg.width = 9;
    assert_eq!(validate_config(&cfg), Err(ConfigError::WidthTooSmall));
    cfg.width = 10;
    assert_eq!(validate_config(&cfg), Ok(()));
}

#[test]
fn config_lower_than_top_margin_is_rejected() {
    let mut cfg = default_config();
    cfg.height = 4;
    assert_eq!(validate_config(&cfg), Err(ConfigError::HeightTooSmall));
    cfg.height = 5;
    assert_eq!(validate_config(&cfg), Ok(()));
}

#[test]
fn width_check_comes_first() {
    let mut cfg = default_config();
    cfg.width = 0;
    cfg.height = 0;
    assert_eq!(validate_config(&cfg), Err(ConfigError::WidthTooSmall));
}

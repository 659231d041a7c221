use rasciichart::sample::STEPS_PER_UNIT;
use rasciichart::{
    plot, plot_multiple, plot_no_labels, plot_range, plot_sized, plot_with_config, ChartError,
    Config, Sample, Symbols,
};

fn s(v: f64) -> Sample {
    if v.is_nan() {
        Sample::Nan
    } else if v == f64::INFINITY {
        Sample::PosInf
    } else if v == f64::NEG_INFINITY {
        Sample::NegInf
    } else {
        Sample::Finite((v * STEPS_PER_UNIT as f64).round() as i64)
    }
}

fn series(vs: &[f64]) -> Vec<Sample> {
    vs.iter().map(|&v| s(v)).collect()
}

#[test]
fn scenario_up_down_default() {
    let data = series(&[1.0, 2.0, 3.0, 4.0, 5.0, 4.0, 3.0, 2.0, 1.0]);
    let chart = plot(&data);
    assert!(!chart.is_empty());
    assert!(chart.lines().count() > 1);
    assert!(chart.contains("│"));
}

#[test]
fn scenario_empty_gives_empty_data() {
    let data: Vec<Sample> = vec![];
    let result = plot_with_config(&data, Config::new());
    assert_eq!(result, Err(ChartError::EmptyData));
}

#[test]
fn scenario_single_value_exact() {
    let data = series(&[5.0]);
    assert_eq!(plot(&data), "5.00");
}

#[test]
fn scenario_equal_explicit_bounds_rejected() {
    let data = series(&[10.0, 20.0, 30.0, 20.0, 10.0]);
    let config = Config::new().with_min(s(10.0)).with_max(s(10.0));
    assert_eq!(plot_with_config(&data, config), Err(ChartError::InvalidRange));
}

#[test]
fn scenario_nan_skipped() {
    let data = series(&[1.0, 2.0, f64::NAN, 4.0, 5.0]);
    let result = plot_with_config(&data, Config::new());
    assert!(result.is_ok());
    assert!(!result.unwrap().is_empty());
}

#[test]
fn scenario_negative_label_present() {
    let data = series(&[-5.0, -2.0, 0.0, 2.0, 5.0, 3.0, -3.0]);
    let chart = plot(&data);
    assert!(!chart.is_empty());
    assert!(chart.contains("-"));
}

#[test]
fn no_finite_values_is_invalid_range() {
    let data = vec![Sample::Nan, Sample::PosInf, Sample::NegInf];
    let result = plot_with_config(&data, Config::new());
    assert_eq!(result, Err(ChartError::InvalidRange));
}

#[test]
fn zero_height_is_invalid_dimensions() {
    let data = series(&[1.0, 2.0]);
    let config = Config::new().with_height(0);
    assert_eq!(plot_with_config(&data, config), Err(ChartError::InvalidDimensions));
}

#[test]
fn zero_width_is_invalid_dimensions() {
    let data = series(&[1.0, 2.0]);
    let config = Config::new().with_width(0);
    assert_eq!(plot_with_config(&data, config), Err(ChartError::InvalidDimensions));
}

#[test]
fn nonfinite_explicit_bound_is_invalid_range() {
    let data = series(&[1.0, 2.0, 3.0]);
    let config = Config::new().with_min(Sample::Nan);
    assert_eq!(plot_with_config(&data, config), Err(ChartError::InvalidRange));
}

#[test]
fn error_messages() {
    assert_eq!(ChartError::EmptyData.message(), "Cannot plot empty data");
    assert_eq!(ChartError::InvalidRange.message(), "Invalid min/max range");
    assert_eq!(ChartError::InvalidDimensions.message(), "Invalid chart dimensions");
}

#[test]
fn plot_substitutes_error_message() {
    let data: Vec<Sample> = vec![];
    assert_eq!(plot(&data), "Cannot plot empty data");
}

#[test]
fn single_nonfinite_values_format_as_names() {
    assert_eq!(plot(&vec![Sample::Nan]), "NaN");
    assert_eq!(plot(&vec![Sample::PosInf]), "inf");
    assert_eq!(plot(&vec![Sample::NegInf]), "-inf");
}

#[test]
fn precision_selects_decimal_places() {
    let one = series(&[2.5]);
    let cfg0 = Config::new().with_label_format("{:.0}".to_string());
    assert_eq!(plot_with_config(&one, cfg0).unwrap(), "3");
    let quarter = series(&[0.25]);
    let cfg1 = Config::new().with_label_format("{:.1}".to_string());
    assert_eq!(plot_with_config(&quarter, cfg1).unwrap(), "0.3");
    let v = series(&[1.5]);
    let cfg_unknown = Config::new().with_label_format("xyz".to_string());
    assert_eq!(plot_with_config(&v, cfg_unknown).unwrap(), "1.50");
}

#[test]
fn tiny_negative_keeps_its_sign() {
    assert_eq!(plot(&series(&[-0.001])), "-0.00");
}

#[test]
fn flat_series_formats_single_value() {
    let data = series(&[7.25, 7.25, 7.25, 7.25]);
    assert_eq!(plot(&data), "7.25");
}

#[test]
fn grid_has_height_plus_one_rows() {
    let data = series(&[1.0, 5.0, 3.0, 8.0]);
    let chart = plot_sized(&data, 7, 30);
    assert_eq!(chart.lines().count(), 8);
    let chart = plot_sized(&data, 10, 80);
    assert_eq!(chart.lines().count(), 11);
}

#[test]
fn ascending_run_shows_rising_corners() {
    let data = series(&[1.0, 2.0, 3.0, 4.0, 5.0]);
    let chart = plot(&data);
    assert!(chart.contains("╭"));
    assert!(chart.contains("╯"));
}

#[test]
fn descending_run_shows_falling_corners() {
    let data = series(&[5.0, 4.0, 3.0, 2.0, 1.0]);
    let chart = plot(&data);
    assert!(chart.contains("╮"));
    assert!(chart.contains("╰"));
}

#[test]
fn distinct_axis_glyph_absent_without_labels() {
    let symbols = Symbols {
        horizontal: '-',
        vertical: '|',
        top_right: '+',
        bottom_right: '+',
        bottom_left: '+',
        top_left: '+',
        axis_vertical: 'A',
        axis_corner: 'B',
        axis_bottom: 'C',
    };
    let data = series(&[1.0, 2.0, 3.0, 4.0, 5.0]);
    let config = Config::new().with_labels(false).with_symbols(symbols);
    let chart = plot_with_config(&data, config).unwrap();
    assert!(!chart.contains('A'));
}

#[test]
fn truncation_ignores_samples_past_the_window() {
    let long: Vec<Sample> = (0..100).map(|x| s((x % 13) as f64)).collect();
    let width = 20usize;
    let prefix: Vec<Sample> = long[..width - 1].to_vec();
    let cfg = || {
        Config::new()
            .with_width(20)
            .with_min(s(0.0))
            .with_max(s(13.0))
    };
    let full = plot_with_config(&long, cfg()).unwrap();
    let cut = plot_with_config(&prefix, cfg()).unwrap();
    assert_eq!(full, cut);
}

#[test]
fn labels_change_only_the_gutter() {
    let data = series(&[1.0, 4.0, 2.0, 9.0, 5.0, 5.0, 3.0]);
    let labeled = plot(&data);
    let bare = plot_no_labels(&data);
    let width = 80usize;
    let labeled_rows: Vec<Vec<char>> = labeled.lines().map(|l| l.chars().collect()).collect();
    let bare_rows: Vec<Vec<char>> = bare.lines().map(|l| l.chars().collect()).collect();
    assert_eq!(labeled_rows.len(), bare_rows.len());
    for (lr, br) in labeled_rows.iter().zip(bare_rows.iter()) {
        assert_eq!(br.len(), width);
        assert!(lr.len() >= width);
        let area = &lr[lr.len() - (width - 1)..];
        // the axis separator sits just before the chart area
        assert_eq!(lr[lr.len() - width], '│');
        // the first chart column is blanked when it doubles the separator
        if br[1] == '│' {
            assert_eq!(area[0], ' ');
        } else {
            assert_eq!(area[0], br[1]);
        }
        // every later column carries the same glyph in both modes
        for j in 1..width - 1 {
            assert_eq!(area[j], br[j + 1]);
        }
    }
}

#[test]
fn tick_rows_carry_interpolated_labels() {
    let data: Vec<Sample> = (0..11).map(|x| s(x as f64)).collect();
    let config = Config::new().with_min(s(0.0)).with_max(s(10.0));
    let chart = plot_with_config(&data, config).unwrap();
    assert!(chart.contains("10.00"));
    assert!(chart.contains("8.00"));
    assert!(chart.contains("6.00"));
    assert!(chart.contains("4.00"));
    assert!(chart.contains("2.00"));
    assert!(chart.contains("0.00"));
}

#[test]
fn lone_explicit_min_above_data_still_renders() {
    // only one bound set: validation has nothing to compare, so the chart
    // renders against an inverted span
    let data = series(&[1.0, 2.0, 3.0]);
    let config = Config::new().with_min(s(10.0));
    let result = plot_with_config(&data, config);
    assert!(result.is_ok());
}

#[test]
fn width_one_draws_nothing() {
    let data = series(&[1.0, 2.0, 3.0]);
    let config = Config::new().with_width(1).with_labels(false);
    let chart = plot_with_config(&data, config).unwrap();
    assert_eq!(chart.lines().count(), 11);
    assert!(chart.chars().all(|c| c == ' ' || c == '\n'));
}

#[test]
fn nan_column_stays_blank_and_line_reconnects() {
    let data = series(&[0.0, 10.0, f64::NAN, 10.0, 0.0]);
    let config = Config::new().with_height(5).with_width(10).with_labels(false);
    let chart = plot_with_config(&data, config).unwrap();
    let rows: Vec<Vec<char>> = chart.lines().map(|l| l.chars().collect()).collect();
    assert_eq!(rows.len(), 6);
    // the non-finite sample's column carries no glyph in any row
    for row in &rows {
        assert_eq!(row[3], ' ');
    }
    // the surrounding samples share a row, so the line resumes level
    assert_eq!(rows[0][2], '╭');
    assert_eq!(rows[0][4], '─');
    assert_eq!(rows[0][5], '╮');
    assert_eq!(rows[5][1], '│');
    assert_eq!(rows[5][2], '╯');
    assert_eq!(rows[5][5], '╰');
}

#[test]
fn multiple_series_sentinels() {
    let empty: Vec<Vec<Sample>> = vec![];
    assert_eq!(plot_multiple(&empty), "No data");
    let no_finite = vec![vec![Sample::Nan], vec![Sample::PosInf]];
    assert_eq!(plot_multiple(&no_finite), "Invalid data");
    // a flat global range makes the explicit bounds coincide, which the
    // configuration check rejects; the helper shows the message instead
    let flat = vec![series(&[5.0, 5.0]), series(&[5.0])];
    assert_eq!(plot_multiple(&flat), "Invalid min/max range");
}

#[test]
fn multiple_series_uses_global_scale() {
    let first = series(&[1.0, 2.0, 3.0]);
    let second = series(&[0.0, 10.0]);
    let chart = plot_multiple(&vec![first, second]);
    // the shared scale spans the second series' range
    assert!(chart.contains("10.00"));
    assert!(chart.contains("0.00"));
}

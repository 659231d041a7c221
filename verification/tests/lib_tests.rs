use rasciichart::sample::STEPS_PER_UNIT;
use rasciichart::{plot, plot_ascii, plot_with_config, Config, Sample};

fn s(v: f64) -> Sample {
    if v.is_nan() {
        Sample::Nan
    } else if v == f64::INFINITY {
        Sample::PosInf
    } else if v == f64::NEG_INFINITY {
        Sample::NegInf
    } else {
        Sample::Finite((v * STEPS_PER_UNIT as f64).round() as i64)
    }
}

fn series(vs: &[f64]) -> Vec<Sample> {
    vs.iter().map(|&v| s(v)).collect()
}

#[test]
fn test_simple_plot() {
    let data = series(&[1.0, 2.0, 3.0, 4.0, 5.0, 4.0, 3.0, 2.0, 1.0]);
    let chart = plot(&data);
    assert!(!chart.is_empty());
}

#[test]
fn test_empty_data() {
    let data: Vec<Sample> = vec![];
    let result = plot_with_config(&data, Config::default());
    assert!(result.is_err());
}

#[test]
fn lib_test_single_value() {
    let data = series(&[5.0]);
    let chart = plot(&data);
    assert!(chart.contains("5.00"));
}

#[test]
fn test_custom_config() {
    let data = series(&[10.0, 20.0, 30.0, 20.0, 10.0]);
    let config = Config::default().with_height(15).with_width(50);
    let chart = plot_with_config(&data, config).unwrap();
    assert!(!chart.is_empty());
}

#[test]
fn test_ascii_symbols() {
    let data = series(&[1.0, 2.0, 3.0]);
    let chart = plot_ascii(&data);
    assert!(!chart.is_empty());
}

#[test]
fn test_invalid_range() {
    let config = Config::default().with_min(s(10.0)).with_max(s(5.0));
    assert!(config.validate().is_err());
}

#[test]
fn test_with_nan() {
    let data = series(&[1.0, 2.0, f64::NAN, 4.0, 5.0]);
    let chart = plot(&data);
    assert!(!chart.is_empty());
}

#[test]
fn lib_test_with_infinity() {
    let data = series(&[1.0, 2.0, f64::INFINITY, 4.0, 5.0]);
    let chart = plot(&data);
    assert!(!chart.is_empty());
}

#[test]
fn test_small_range() {
    let data = series(&[1.001, 1.002, 1.003, 1.002, 1.001]);
    let chart = plot(&data);
    assert!(!chart.is_empty());
    // Should not be excessively tall
    let line_count = chart.lines().count();
    assert!(line_count <= 15); // Default height + 1
}

#[test]
fn test_ascending_line() {
    let data = series(&[1.0, 2.0, 3.0, 4.0, 5.0]);
    let chart = plot(&data);
    // Should contain ascending characters
    assert!(chart.contains("╭") || chart.contains("╰"));
}

#[test]
fn test_descending_line() {
    let data = series(&[5.0, 4.0, 3.0, 2.0, 1.0]);
    let chart = plot(&data);
    // Should contain descending characters
    assert!(chart.contains("╮") || chart.contains("╯"));
}

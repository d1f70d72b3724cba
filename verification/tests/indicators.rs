//! The boolean repeat kernel.

use stock_directive::calc_repeat;
use stock_directive::IndicatorError;

#[test]
fn test_repeat_windows() {
    let data = vec![true, true, false, true, true, true];
    assert_eq!(calc_repeat(&data, 1), data);
    assert_eq!(calc_repeat(&data, 2), vec![false, true, false, false, true, true]);
    assert_eq!(calc_repeat(&data, 3), vec![false, false, false, false, false, true]);
}

#[test]
fn test_repeat_window_longer_than_data() {
    let data = vec![true, true];
    assert_eq!(calc_repeat(&data, 5), vec![false, false]);
}

#[test]
fn test_repeat_on_empty_data() {
    let data: Vec<bool> = Vec::new();
    assert_eq!(calc_repeat(&data, 3), Vec::<bool>::new());
}

#[test]
fn test_indicator_error_messages() {
    assert_eq!(
        IndicatorError::InvalidPeriod("0".to_string()).message(),
        "Invalid period: 0"
    );
    assert_eq!(
        IndicatorError::ArrayTooShort { expected: 20, got: 5 }.message(),
        "Array too short: expected at least 20 elements, got 5"
    );
    assert_eq!(
        IndicatorError::InvalidArgument("direction".to_string()).message(),
        "Invalid argument: direction"
    );
}

use mandelbrot::{join_pair, parse_pair, parse_px_window, split_pair, PxWindow};

#[test]
fn text_parse_pair() {
    assert_eq!(parse_pair::<i32>("123x456", 'x'), Some((123, 456)));
    assert_eq!(parse_pair::<f64>("1.23,5.67", ','), Some((1.23, 5.67)));
    assert_eq!(parse_pair::<u64>("132x", 'x'), None);
    assert_eq!(parse_pair::<u64>("x", 'x'), None);
    assert_eq!(parse_pair::<u64>("13,2", 'x'), None);
}

#[test]
fn parse_pair_splits_at_first_separator() {
    assert_eq!(parse_pair::<String>("ab,cd,ef", ','), Some(("ab".to_string(), "cd,ef".to_string())));
    assert_eq!(parse_pair::<f64>("3,-4", ','), Some((3.0, -4.0)));
    assert_eq!(parse_pair::<f64>("12.345", ','), None);
    assert_eq!(parse_pair::<f64>("12.345,", ','), None);
}

#[test]
fn split_pair_cases() {
    assert_eq!(split_pair("800x600", 'x'), Some(("800", "600")));
    assert_eq!(split_pair("x", 'x'), Some(("", "")));
    assert_eq!(split_pair("axbxc", 'x'), Some(("a", "bxc")));
    assert_eq!(split_pair("é,ü", ','), Some(("é", "ü")));
    assert_eq!(split_pair("800,600", 'x'), None);
    assert_eq!(split_pair("", 'x'), None);
}

#[test]
fn parse_px_window_valid() {
    assert_eq!(parse_px_window("800x600"), Some(PxWindow { width: 800, height: 600 }));
    assert_eq!(parse_px_window("+8x06"), Some(PxWindow { width: 8, height: 6 }));
}

#[test]
fn parse_px_window_invalid() {
    assert_eq!(parse_px_window("0x1"), None);
    assert_eq!(parse_px_window("5x0"), None);
    assert_eq!(parse_px_window("0x0"), None);
    assert_eq!(parse_px_window("800x"), None);
    assert_eq!(parse_px_window("x600"), None);
    assert_eq!(parse_px_window("800,600"), None);
    assert_eq!(parse_px_window("8x6x4"), None);
    assert_eq!(parse_px_window("-8x6"), None);
    assert_eq!(parse_px_window("+x6"), None);
    assert_eq!(parse_px_window(" 8x6"), None);
    assert_eq!(parse_px_window("99999999999999999999999x6"), None);
}

#[test]
fn join_pair_needs_both_halves() {
    assert_eq!(join_pair(Some(1), Some(2)), Some((1, 2)));
    assert_eq!(join_pair(Some(1), None::<i32>), None);
    assert_eq!(join_pair(None, Some(2)), None);
    assert_eq!(join_pair::<u8>(None, None), None);
}

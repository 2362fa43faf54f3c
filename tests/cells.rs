use sts_convert::cells::{parse_tdts_cell_value, parse_u16, parse_xdts_cell_value};

#[test]
fn xdts_null_cell_is_blank() {
    assert_eq!(parse_xdts_cell_value("SYMBOL_NULL_CELL"), Some(0));
}

#[test]
fn xdts_ticks_and_hyphen_set_no_keyframe() {
    assert_eq!(parse_xdts_cell_value("SYMBOL_TICK_1"), None);
    assert_eq!(parse_xdts_cell_value("SYMBOL_TICK_2"), None);
    assert_eq!(parse_xdts_cell_value("SYMBOL_HYPHEN"), None);
}

#[test]
fn xdts_trailing_digits() {
    assert_eq!(parse_xdts_cell_value("CEL_7"), Some(7));
    assert_eq!(parse_xdts_cell_value("A12B034"), Some(34));
    assert_eq!(parse_xdts_cell_value("15"), Some(15));
}

#[test]
fn xdts_without_trailing_digits() {
    assert_eq!(parse_xdts_cell_value("CEL"), None);
    assert_eq!(parse_xdts_cell_value("7A"), None);
    assert_eq!(parse_xdts_cell_value(""), None);
}

#[test]
fn xdts_trailing_digits_too_large() {
    assert_eq!(parse_xdts_cell_value("X65535"), Some(65535));
    assert_eq!(parse_xdts_cell_value("X65536"), None);
}

#[test]
fn tdts_numbers() {
    assert_eq!(parse_tdts_cell_value("12"), 12);
    assert_eq!(parse_tdts_cell_value("SYMBOL_NULL_CELL"), 0);
    assert_eq!(parse_tdts_cell_value("abc"), 0);
    assert_eq!(parse_tdts_cell_value("70000"), 0);
    assert_eq!(parse_tdts_cell_value(""), 0);
}

#[test]
fn parse_u16_matches_std() {
    for s in ["0", "+12", "+", "-1", "65535", "65536", "007", "1 ", "", "١"] {
        assert_eq!(parse_u16(s), s.parse::<u16>().ok(), "{}", s);
    }
}

use terminal_interop::geometry::{
    build_geometry_query, build_window_pixels_query, parse_window_cells, parse_window_cells_at,
    parse_window_pixels, parse_window_pixels_at,
};

#[test]
fn parses_window_area_pixels_with_noise() {
    let responses = parse_window_pixels(b"noise\x1b[4;1080;1920tend");
    let response = responses.first().expect("one response");
    assert_eq!(response.width, 1920);
    assert_eq!(response.height, 1080);
    assert_eq!(response.offset, 5);
}

#[test]
fn rejects_zero_incomplete_and_extra_fields() {
    assert!(parse_window_pixels(b"\x1b[4;0;1920t").is_empty());
    assert!(parse_window_pixels(b"\x1b[4;1080;1920").is_empty());
    assert!(parse_window_pixels(b"\x1b[4;1;2;3t").is_empty());
}

#[test]
fn parses_window_area_cells() {
    let responses = parse_window_cells(b"\x1b[8;40;120t");
    let response = responses.first().expect("one response");
    assert_eq!(response.columns, 120);
    assert_eq!(response.rows, 40);
}

#[test]
fn queries_are_xterm_window_reports() {
    assert_eq!(build_window_pixels_query(), b"\x1b[14t".to_vec());
    assert_eq!(build_geometry_query(), b"\x1b[14t\x1b[18t".to_vec());
}

#[test]
fn reports_at_exact_offsets() {
    assert!(parse_window_pixels_at(b"\x1b[4;10;20t", 0).is_some());
    assert!(parse_window_pixels_at(b"\x1b[4;10;20t", 1).is_none());
    assert!(parse_window_cells_at(b"\x1b[4;10;20t", 0).is_none());
    let cells = parse_window_cells_at(b"..\x1b[8;24;80t", 2).expect("cells");
    assert_eq!((cells.rows, cells.columns, cells.offset), (24, 80, 2));
}

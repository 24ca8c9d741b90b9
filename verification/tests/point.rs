use gomoku::Point;

#[test]
fn offset_stays_in_bounds() {
    let p = Point::new(0, 0);
    assert_eq!(p.offset(-1, 0), None);
    assert_eq!(p.offset(0, -1), None);
    assert_eq!(p.offset(1, 1), Some(Point::new(1, 1)));
    assert_eq!(Point::new(18, 18).offset(1, 0), None);
}

#[test]
fn algebraic_roundtrip() {
    assert_eq!(Point::parse("a1"), Some(Point::new(0, 0)));
    assert_eq!(Point::parse("H8"), Some(Point::new(7, 7)));
    assert_eq!(Point::new(7, 7).to_string(), "h8");
    assert_eq!(Point::parse("a0"), None);
    assert_eq!(Point::parse(""), None);
}

#[test]
fn parse_accepts_surrounding_whitespace_and_plus() {
    assert_eq!(Point::parse("  s19\t"), Some(Point::new(18, 18)));
    assert_eq!(Point::parse("c+3"), Some(Point::new(2, 2)));
    assert_eq!(Point::parse("b10"), Some(Point::new(1, 9)));
    assert_eq!(Point::parse("z256"), Some(Point::new(25, 255)));
}

#[test]
fn parse_rejects_malformed_text() {
    assert_eq!(Point::parse("8h"), None);
    assert_eq!(Point::parse("h"), None);
    assert_eq!(Point::parse("h 8"), None);
    assert_eq!(Point::parse("h257"), None);
    assert_eq!(Point::parse("h-1"), None);
    assert_eq!(Point::parse("h99999999999"), None);
}

#[test]
fn text_round_trip_over_a_board() {
    for x in 0..19u8 {
        for y in 0..19u8 {
            let p = Point::new(x, y);
            assert_eq!(Point::parse(&p.to_string()), Some(p));
        }
    }
    assert_eq!(Point::new(18, 9).to_string(), "s10");
}

#[test]
fn offset_moves_both_ways() {
    assert_eq!(Point::new(5, 5).offset(-2, 3), Some(Point::new(3, 8)));
    assert_eq!(Point::new(17, 0).offset(1, 0), Some(Point::new(18, 0)));
}

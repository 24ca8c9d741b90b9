use gomoku::{Constraint, OpeningName, Point, ALL_OPENINGS};
use std::collections::HashSet;

#[test]
fn there_are_26_distinct_openings() {
    assert_eq!(ALL_OPENINGS.len(), 26);
    let mut seen = HashSet::new();
    for name in ALL_OPENINGS {
        // Distinct by (stone2, stone3) offset pair.
        let o = name.offsets();
        assert!(
            seen.insert((o[1], o[2])),
            "duplicate opening {}",
            name.romaji()
        );
    }
    assert_eq!(seen.len(), 26);
    assert_eq!(ALL_OPENINGS.iter().filter(|n| n.is_direct()).count(), 13);
}

#[test]
fn placements_are_on_board_and_distinct() {
    for name in ALL_OPENINGS {
        let pts = name.placements(15);
        assert_ne!(pts[0], pts[1]);
        assert_ne!(pts[0], pts[2]);
        assert_ne!(pts[1], pts[2]);
        for p in pts {
            assert!(p.x < 15 && p.y < 15);
        }
        assert_eq!(pts[0], Point::new(7, 7)); // stone 1 is always center
    }
}

#[test]
fn identify_round_trips() {
    for name in ALL_OPENINGS {
        let pts = name.placements(15);
        assert_eq!(
            OpeningName::identify(pts, 15),
            Some(name),
            "{}",
            name.romaji()
        );
    }
}

#[test]
fn constraint_distance() {
    let center = Point::new(7, 7);
    assert!(Constraint::Center.allows(center, center));
    assert!(!Constraint::Center.allows(Point::new(8, 7), center));
    assert!(!Constraint::MinDistance(3).allows(Point::new(9, 7), center)); // dist 2
    assert!(Constraint::MinDistance(3).allows(Point::new(10, 7), center)); // dist 3
}

#[test]
fn identify_sees_through_rotations_and_reflections() {
    let name = ALL_OPENINGS[3];
    let pts = name.placements(15);
    // Rotate a quarter turn about the center: (x, y) -> (14 - y, x).
    let rotated = [
        pts[0],
        Point::new(14 - pts[1].y, pts[1].x),
        Point::new(14 - pts[2].y, pts[2].x),
    ];
    assert_eq!(OpeningName::identify(rotated, 15), Some(name));
    // Mirror left to right: (x, y) -> (14 - x, y).
    let mirrored = [
        pts[0],
        Point::new(14 - pts[1].x, pts[1].y),
        Point::new(14 - pts[2].x, pts[2].y),
    ];
    assert_eq!(OpeningName::identify(mirrored, 15), Some(name));
}

#[test]
fn identify_rejects_off_center_and_unknown_shapes() {
    let pts = [Point::new(0, 0), Point::new(1, 0), Point::new(2, 0)];
    assert_eq!(OpeningName::identify(pts, 15), None);
    let far = [Point::new(7, 7), Point::new(7, 12), Point::new(12, 7)];
    assert_eq!(OpeningName::identify(far, 15), None);
}

#[test]
fn names_have_both_spellings() {
    for name in ALL_OPENINGS {
        assert!(!name.romaji().is_empty());
        assert!(!name.kanji().is_empty());
    }
}

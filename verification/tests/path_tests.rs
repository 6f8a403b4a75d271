use ultra_render::geometry::path::ContourIter;
use ultra_render::geometry::path::PathVerb::{Close, Cubic, Line, Move, Quad};

#[test]
fn contours_split_at_moves_and_closes() {
    let verbs = vec![Move, Line, Line, Close, Move, Cubic, Move, Quad];
    let points_len = 1 + 1 + 1 + 1 + 3 + 1 + 2;
    let mut it = ContourIter::new();
    let a = it.next(&verbs, points_len).unwrap();
    assert_eq!((a.verb_start, a.verb_end, a.point_start, a.point_end, a.closed), (0, 4, 0, 3, true));
    let b = it.next(&verbs, points_len).unwrap();
    assert_eq!((b.verb_start, b.verb_end, b.point_start, b.point_end, b.closed), (4, 6, 3, 7, false));
    let c = it.next(&verbs, points_len).unwrap();
    assert_eq!((c.verb_start, c.verb_end, c.point_start, c.point_end, c.closed), (6, 8, 7, 10, false));
    assert!(it.next(&verbs, points_len).is_none());
}

#[test]
fn close_without_points_ends_the_walk() {
    let verbs = vec![Close, Move, Line];
    let mut it = ContourIter::new();
    assert!(it.next(&verbs, 2).is_none());
    assert_eq!(it.verb_idx, 1);
    let c = it.next(&verbs, 2).unwrap();
    assert_eq!((c.verb_start, c.verb_end, c.point_start, c.point_end), (1, 3, 0, 2));
}

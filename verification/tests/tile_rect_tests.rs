use caves::grid_size::GridSize;
use caves::tile_pos::TilePos;
use caves::tile_rect::TileRect;

#[test]
fn tile_rect_center() {
    let rect = TileRect::new(TilePos { row: 1, col: 2 }, GridSize { rows: 11, cols: 9 });
    // Want to be directly in the center
    assert_eq!(rect.center_tile(), TilePos { row: 6, col: 6 });
    let rect = TileRect::new(TilePos { row: 1, col: 2 }, GridSize { rows: 12, cols: 14 });
    // Want to bias towards the bottom-right of the center
    assert_eq!(rect.center_tile(), TilePos { row: 7, col: 9 });
}

#[test]
fn tile_rect_rectangle_expand() {
    // Expanding a rectangle should not go beyond (0,0) - i.e. it should avoid subtraction with
    // underflow
    let rect = TileRect::new(TilePos { row: 0, col: 0 }, GridSize { rows: 10, cols: 10 });
    assert_eq!(rect.expand(2), TileRect::new(TilePos { row: 0, col: 0 }, GridSize { rows: 12, cols: 12 }));
    let rect = TileRect::new(TilePos { row: 1, col: 1 }, GridSize { rows: 10, cols: 10 });
    assert_eq!(rect.expand(2), TileRect::new(TilePos { row: 0, col: 0 }, GridSize { rows: 13, cols: 13 }));
    let rect = TileRect::new(TilePos { row: 2, col: 2 }, GridSize { rows: 10, cols: 10 });
    assert_eq!(rect.expand(2), TileRect::new(TilePos { row: 0, col: 0 }, GridSize { rows: 14, cols: 14 }));
    let rect = TileRect::new(TilePos { row: 2, col: 3 }, GridSize { rows: 10, cols: 12 });
    assert_eq!(rect.expand(2), TileRect::new(TilePos { row: 0, col: 1 }, GridSize { rows: 14, cols: 16 }));
}

#[test]
fn split() {
    let rect = TileRect::new(TilePos { row: 0, col: 0 }, GridSize { rows: 11, cols: 15 });
    let center = rect.center_tile();

    {
        let (top, bottom) = rect.split_horizontal();
        // Should share their bottom and top edge
        assert_eq!(top.bottom_left(), bottom.top_left());
        assert_eq!(top.bottom_right(), bottom.top_right());
        // Should still reach the rectangle it grew from
        assert_eq!(top.top_left(), rect.top_left());
        assert_eq!(top.top_right(), rect.top_right());
        assert_eq!(bottom.bottom_left(), rect.bottom_left());
        assert_eq!(bottom.bottom_right(), rect.bottom_right());
        // Should overlap horizontally
        assert_eq!(top.dimensions().rows + bottom.dimensions().rows, rect.dimensions().rows + 1);
        // Check the exact rectangles
        assert_eq!(top, TileRect::new(rect.top_left(), GridSize { rows: 5, cols: 15 }));
        assert_eq!(bottom, TileRect::new(TilePos { row: center.row - 1, col: 0 }, GridSize { rows: 7, cols: 15 }));
    }

    {
        let (left, right) = rect.split_vertical();
        // Should share their right and left edge
        assert_eq!(left.top_right(), right.top_left());
        assert_eq!(left.bottom_right(), right.bottom_left());
        // Should still reach the rectangle it grew from
        assert_eq!(left.top_left(), rect.top_left());
        assert_eq!(right.top_right(), rect.top_right());
        assert_eq!(left.bottom_left(), rect.bottom_left());
        assert_eq!(right.bottom_right(), rect.bottom_right());
        // Should overlap vertically
        assert_eq!(left.dimensions().cols + right.dimensions().cols, rect.dimensions().cols + 1);
        // Check the exact rectangles
        assert_eq!(left, TileRect::new(rect.top_left(), GridSize { rows: 11, cols: 7 }));
        assert_eq!(right, TileRect::new(TilePos { row: 0, col: center.col - 1 }, GridSize { rows: 11, cols: 9 }));
    }
}

#[test]
fn intersection_of_overlapping_rects() {
    let a = TileRect::new(TilePos { row: 0, col: 0 }, GridSize { rows: 5, cols: 5 });
    let b = TileRect::new(TilePos { row: 3, col: 2 }, GridSize { rows: 5, cols: 5 });
    assert_eq!(a.intersection(b), Some(TileRect::new(TilePos { row: 3, col: 2 }, GridSize { rows: 2, cols: 3 })));
    assert_eq!(b.intersection(a), a.intersection(b));
    assert!(a.has_intersection(b));
    let c = TileRect::new(TilePos { row: 5, col: 0 }, GridSize { rows: 2, cols: 2 });
    assert_eq!(a.intersection(c), None);
    assert!(!a.has_intersection(c));
}

#[test]
fn edge_positions_go_around_the_rect() {
    let rect = TileRect::new(TilePos { row: 1, col: 1 }, GridSize { rows: 3, cols: 3 });
    let edges = rect.edge_positions();
    assert_eq!(edges.len(), 8);
    assert!(!edges.contains(&TilePos { row: 2, col: 2 }));
    assert_eq!(edges[0], TilePos { row: 1, col: 1 });
    assert_eq!(edges[1], TilePos { row: 3, col: 1 });
    assert_eq!(edges[6], TilePos { row: 2, col: 1 });
    assert_eq!(edges[7], TilePos { row: 2, col: 3 });
    assert!(rect.is_corner(TilePos { row: 3, col: 3 }));
    assert!(!rect.is_corner(TilePos { row: 2, col: 3 }));
    assert_eq!(rect.area(), 9);
    assert_eq!(rect.tile_positions().len(), 9);
}

#[test]
fn tile_rect_to_world_rect() {
    let rect = TileRect::new(TilePos { row: 3, col: 5 }, GridSize { rows: 4, cols: 7 });
    assert_eq!(rect.to_rect(), caves::geometry::Rect { x: 5, y: 3, w: 7, h: 4 });
}

#[test]
fn far_rectangles_are_cut_down_like_screen_rectangles() {
    let far = |row: usize| TileRect { top_left: TilePos { row, col: 0 }, dim: GridSize { rows: 1, cols: 1 } };
    // both rows lie beyond the largest position a screen rectangle holds, so both are cut down to it
    let a = far(0x5000_0000);
    let b = far(0x6000_0000);
    assert!(a.has_intersection(b));
    assert_eq!(a.intersection(b), Some(far(0x3fff_ffff)));
    // a size of zero counts as one
    let c = TileRect { top_left: TilePos { row: 4, col: 4 }, dim: GridSize { rows: 0, cols: 0 } };
    let d = TileRect { top_left: TilePos { row: 3, col: 3 }, dim: GridSize { rows: 2, cols: 2 } };
    assert_eq!(c.intersection(d), Some(TileRect { top_left: TilePos { row: 4, col: 4 }, dim: GridSize { rows: 1, cols: 1 } }));
    assert_eq!(d.intersection(c), c.intersection(d));
}

use chessground::geom::{
    cell_around, ease, ease_unit, pos_to_square, square_rect, square_to_pos, threshold_crossed,
};
use chessground::{BoardPos, BoardRect, Color, PixelRect, Square, Transform};

fn gsq(file: u8, rank: u8) -> Square {
    Square::new(file, rank)
}

#[test]
fn square_lookup_at_corners() {
    // top-left pixel of the board is a8, bottom-right is h1
    assert_eq!(pos_to_square(BoardPos { x: 0, y: 0 }), Some(gsq(0, 7)));
    assert_eq!(pos_to_square(BoardPos { x: 7999, y: 7999 }), Some(gsq(7, 0)));
    assert_eq!(pos_to_square(BoardPos { x: 4500, y: 6500 }), Some(gsq(4, 1)));
}

#[test]
fn square_lookup_outside_board() {
    assert_eq!(pos_to_square(BoardPos { x: 8000, y: 100 }), None);
    assert_eq!(pos_to_square(BoardPos { x: -1, y: 100 }), None);
    assert_eq!(pos_to_square(BoardPos { x: 100, y: 8000 }), None);
    assert_eq!(pos_to_square(BoardPos { x: 100, y: -5 }), None);
}

#[test]
fn square_centers() {
    assert_eq!(square_to_pos(gsq(4, 1)), BoardPos { x: 4500, y: 6500 });
    assert_eq!(square_to_pos(gsq(0, 0)), BoardPos { x: 500, y: 7500 });
    assert_eq!(square_to_pos(gsq(7, 7)), BoardPos { x: 7500, y: 500 });
}

#[test]
fn lookup_inverts_center() {
    for file in 0..8u8 {
        for rank in 0..8u8 {
            let sq = gsq(file, rank);
            assert_eq!(pos_to_square(square_to_pos(sq)), Some(sq));
        }
    }
}

#[test]
fn ease_endpoints() {
    assert_eq!(ease(0, 1000, 0), 0);
    assert_eq!(ease(0, 1000, 1000), 1000);
    assert_eq!(ease(0, 1000, 2000), 1000);
    assert_eq!(ease(300, 300, 700), 300);
}

#[test]
fn ease_exact_values() {
    // the cubic curve: 4 * t^3 at quarter progress, in per mille
    assert_eq!(ease_unit(250), 62);
    assert_eq!(ease_unit(500), 500);
    assert_eq!(ease(0, 1000, 250), 62);
    assert_eq!(ease(1000, 0, 250), 938);
    // descending interpolation mirrors ascending
    assert_eq!(ease(2000, 1000, 250), 2000 - 62);
}

#[test]
fn drag_threshold_zero_distance_never_crosses() {
    let p = BoardPos { x: 4500, y: 6500 };
    assert!(!threshold_crossed(p, p, 9));
    assert!(!threshold_crossed(p, p, 1_000_000));
}

#[test]
fn drag_threshold_board_units() {
    let a = BoardPos { x: 0, y: 0 };
    // a tenth of a square (100 milli units) crosses on any widget size
    assert!(threshold_crossed(a, BoardPos { x: 100, y: 0 }, 9));
    // just under, on a tiny widget: neither rule fires
    assert!(!threshold_crossed(a, BoardPos { x: 50, y: 0 }, 9));
}

#[test]
fn drag_threshold_pixels() {
    let a = BoardPos { x: 0, y: 0 };
    let b = BoardPos { x: 50, y: 0 };
    // 50 milli units are four pixels exactly when 50 * size / 9000 == 4
    assert!(threshold_crossed(a, b, 720));
    assert!(!threshold_crossed(a, b, 719));
}

#[test]
fn chebyshev_distance() {
    assert_eq!(gsq(0, 0).distance(gsq(3, 5)), 5);
    assert_eq!(gsq(3, 5).distance(gsq(0, 0)), 5);
    assert_eq!(gsq(2, 2).distance(gsq(2, 2)), 0);
    assert_eq!(gsq(7, 0).distance(gsq(0, 0)), 7);
}

#[test]
fn redraw_rect_in_pixels() {
    let t = Transform::new(100, 50, Color::White);
    assert_eq!(t.size(), 50);
    let r = square_rect(gsq(0, 7));
    assert_eq!(r, BoardRect { x: 0, y: 0, w: 1000, h: 1000 });
    let px = t.rect_to_pixels(r);
    // corner terms: floor(-4 * 50 / 9) = -23, ceil(-3 * 50 / 9) = -16
    assert_eq!(px, PixelRect { x: 27, y: 2, w: 7, h: 7 });
}

#[test]
fn redraw_rect_flipped() {
    let t = Transform::new(100, 50, Color::Black);
    let px = t.rect_to_pixels(square_rect(gsq(0, 7)));
    // under the half-turn the a8 cell lands mirrored about the center
    assert_eq!(px, PixelRect { x: 66, y: 41, w: 7, h: 7 });
}

#[test]
fn minimum_board_size() {
    let t = Transform::new(0, 0, Color::White);
    assert_eq!(t.size(), 9);
}

#[test]
fn cell_rect_around_point() {
    let r = cell_around(BoardPos { x: 4500, y: 6500 });
    assert_eq!(r, BoardRect { x: 4000, y: 6000, w: 1000, h: 1000 });
}

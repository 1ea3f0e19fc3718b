use chessground::geom::square_to_pos;
use chessground::{Board, BoardPos, Piece, Pieces, Square};

fn dsq(file: u8, rank: u8) -> Square {
    Square::new(file, rank)
}

fn press_on(p: &mut Pieces, sq: Square) {
    p.selection_mouse_down(1, Some(sq));
    p.drag_mouse_down(1, Some(sq), square_to_pos(sq));
}

#[test]
fn press_release_in_place_is_no_drag() {
    // a press and release at the identical pointer position: the movement
    // threshold stays uncrossed and no move arises
    let mut p = Pieces::new(0);
    let e2 = dsq(4, 1);
    press_on(&mut p, e2);
    assert!(!p.drag.unwrap().threshold);
    p.drag_mouse_move(square_to_pos(e2), 720);
    assert!(!p.drag.unwrap().threshold);
    let cand = p.drag_mouse_up(Some(e2), 10);
    assert_eq!(cand, None);
    assert!(p.drag.is_none());
    assert!(p.dragging().is_none());
    // the click selected the square, ready for click-to-move
    assert_eq!(p.selected, Some(e2));
}

#[test]
fn movement_beyond_threshold_is_a_drag() {
    let mut p = Pieces::new(0);
    let e2 = dsq(4, 1);
    press_on(&mut p, e2);
    let c = square_to_pos(e2);
    // just over a tenth of a square
    p.drag_mouse_move(BoardPos { x: c.x + 101, y: c.y }, 9);
    assert!(p.drag.unwrap().threshold);
    assert_eq!(p.selected, Some(e2));
    let f = p.dragging().unwrap();
    assert_eq!(f.square, e2);
}

#[test]
fn drop_on_another_square_yields_the_move() {
    let mut p = Pieces::new(0);
    let e2 = dsq(4, 1);
    let e4 = dsq(4, 3);
    press_on(&mut p, e2);
    p.drag_mouse_move(square_to_pos(e4), 720);
    let cand = p.drag_mouse_up(Some(e4), 30);
    assert_eq!(cand, Some((e2, e4)));
    assert!(p.drag.is_none());
    assert_eq!(p.selected, None);
    // the dropped figurine remembers the drop time
    assert_eq!(p.figurine_at(e2).unwrap().last_drag, 30);
}

#[test]
fn press_on_empty_square_neither_selects_nor_drags() {
    let mut p = Pieces::new(0);
    let e4 = dsq(4, 3);
    press_on(&mut p, e4);
    assert_eq!(p.selected, None);
    assert!(p.drag.is_none());
}

#[test]
fn click_to_move_candidate() {
    let mut p = Pieces::new(0);
    let e2 = dsq(4, 1);
    let e4 = dsq(4, 3);
    let cand = p.selection_mouse_down(1, Some(e2));
    assert_eq!(cand, None);
    assert_eq!(p.selected, Some(e2));
    let cand = p.selection_mouse_down(1, Some(e4));
    assert_eq!(cand, Some((e2, e4)));
    assert_eq!(p.selected, None);
}

#[test]
fn clicking_the_selection_deselects() {
    let mut p = Pieces::new(0);
    let e2 = dsq(4, 1);
    p.selection_mouse_down(1, Some(e2));
    let cand = p.selection_mouse_down(1, Some(e2));
    assert_eq!(cand, None);
    assert_eq!(p.selected, None);
}

#[test]
fn snapshot_mid_drag_cancels_the_drag() {
    let mut p = Pieces::new(0);
    let e2 = dsq(4, 1);
    press_on(&mut p, e2);
    assert!(p.drag.is_some());
    // the host replaces the position: e2 is now empty, the dragged
    // figurine vanishes and the gesture must be cleanly cancelled
    let mut b2 = Board::starting();
    b2.set_piece_at(e2, None);
    b2.set_piece_at(dsq(4, 3), b2.piece_at(dsq(4, 1)).or(Some(Piece {
        color: chessground::Color::White,
        role: chessground::Role::Pawn,
    })));
    p.set_board(&b2, 300);
    assert!(p.drag.is_none());
    assert!(p.dragging().is_none());
}

#[test]
fn drop_snaps_when_update_follows_quickly() {
    // a figurine dropped by hand does not glide from its origin when the
    // confirming snapshot arrives within the snap window
    let mut p = Pieces::new(0);
    let e2 = dsq(4, 1);
    let e4 = dsq(4, 3);
    press_on(&mut p, e2);
    p.drag_mouse_move(square_to_pos(e4), 720);
    p.drag_mouse_up(Some(e4), 400);
    let mut b2 = Board::starting();
    b2.set_piece_at(e2, None);
    b2.set_piece_at(e4, Some(Piece { color: chessground::Color::White, role: chessground::Role::Pawn }));
    p.set_board(&b2, 450); // 50 ms after the drop: inside the snap window
    let f = p.figurine_at(e4).unwrap();
    assert_eq!(f.start, square_to_pos(e4));
}

#[test]
fn drag_ghost_appears_only_past_threshold() {
    let mut p = Pieces::new(0);
    let e2 = dsq(4, 1);
    press_on(&mut p, e2);
    assert_eq!(p.drag_ghost(), None);
    let c = square_to_pos(e2);
    let at = BoardPos { x: c.x + 500, y: c.y };
    p.drag_mouse_move(at, 720);
    let (piece, pos) = p.drag_ghost().unwrap();
    assert_eq!(pos, at);
    assert_eq!(piece, p.figurine_at(e2).unwrap().piece());
}

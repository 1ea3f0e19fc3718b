use chessground::geom::square_to_pos;
use chessground::{
    Board, Color, Ground, GroundMsg, Move, Piece, Pieces, Pos, Role, Square,
};

fn csq(file: u8, rank: u8) -> Square {
    Square::new(file, rank)
}

fn cmv(from: Square, to: Square, promotion: Option<Role>) -> Move {
    Move { from, to, promotion }
}

fn starting_pos_with_e4() -> Pos {
    // a snapshot of the start position whose legal-move list carries the
    // two pawn pushes from e2 and a knight move
    let e2 = csq(4, 1);
    let legals = vec![
        cmv(e2, csq(4, 3), None),
        cmv(e2, csq(4, 2), None),
        cmv(csq(6, 0), csq(5, 2), None),
    ];
    Pos::new(Board::starting(), legals, None, Some(Color::White))
}

#[test]
fn drag_move_flow_emits_the_user_move() {
    // start position, White to move; the user presses on e2, drags beyond
    // the threshold to e4 and releases: the widget validates the move and
    // emits it
    let mut g = Ground::new(0);
    g.update(GroundMsg::SetPos(starting_pos_with_e4()), 10);
    let e2 = csq(4, 1);
    let e4 = csq(4, 3);
    let (um, sc) = g.button_press(1, square_to_pos(e2), false, false, 300);
    assert_eq!(um, None);
    assert_eq!(sc, None);
    g.motion(square_to_pos(e4), 720, 310);
    let (um, _) = g.button_release(square_to_pos(e4), 320);
    assert_eq!(um, Some((e2, e4, None)));
    // no promotion chooser opened
    assert!(g.promotable.promoting.is_none());
}

#[test]
fn click_move_flow_emits_the_user_move() {
    let mut g = Ground::new(0);
    g.update(GroundMsg::SetPos(starting_pos_with_e4()), 10);
    let e2 = csq(4, 1);
    let e4 = csq(4, 3);
    let (um, _) = g.button_press(1, square_to_pos(e2), false, false, 300);
    assert_eq!(um, None);
    let (um, _) = g.button_release(square_to_pos(e2), 310);
    assert_eq!(um, None);
    let (um, _) = g.button_press(1, square_to_pos(e4), false, false, 600);
    assert_eq!(um, Some((e2, e4, None)));
}

#[test]
fn illegal_candidate_is_silently_dropped() {
    let mut g = Ground::new(0);
    g.update(GroundMsg::SetPos(starting_pos_with_e4()), 10);
    let e2 = csq(4, 1);
    let h5 = csq(7, 4);
    g.button_press(1, square_to_pos(e2), false, false, 300);
    g.motion(square_to_pos(h5), 720, 310);
    let (um, _) = g.button_release(square_to_pos(h5), 320);
    assert_eq!(um, None);
    assert!(g.promotable.promoting.is_none());
}

fn promotion_pos() -> Pos {
    let e7 = csq(4, 6);
    let e8 = csq(4, 7);
    let mut b = Board::empty();
    b.set_piece_at(e7, Some(Piece { color: Color::White, role: Role::Pawn }));
    let legals = vec![
        cmv(e7, e8, Some(Role::Queen)),
        cmv(e7, e8, Some(Role::Rook)),
        cmv(e7, e8, Some(Role::Bishop)),
        cmv(e7, e8, Some(Role::Knight)),
    ];
    Pos::new(b, legals, None, Some(Color::White))
}

#[test]
fn promotion_move_opens_the_chooser_instead_of_emitting() {
    let mut g = Ground::new(0);
    g.update(GroundMsg::SetPos(promotion_pos()), 10);
    let e7 = csq(4, 6);
    let e8 = csq(4, 7);
    g.button_press(1, square_to_pos(e7), false, false, 300);
    g.motion(square_to_pos(e8), 720, 310);
    let (um, _) = g.button_release(square_to_pos(e8), 320);
    assert_eq!(um, None);
    let p = g.promotable.promoting.unwrap();
    assert_eq!(p.orig, e7);
    assert_eq!(p.dest, e8);
    assert_eq!(p.color, Color::White);
}

#[test]
fn chooser_cell_press_emits_the_full_move() {
    let mut g = Ground::new(0);
    g.update(GroundMsg::SetPos(promotion_pos()), 10);
    let e7 = csq(4, 6);
    let e8 = csq(4, 7);
    g.button_press(1, square_to_pos(e7), false, false, 300);
    g.motion(square_to_pos(e8), 720, 310);
    g.button_release(square_to_pos(e8), 320);
    // the bishop cell is two ranks below the destination, on e6
    let (um, _) = g.button_press(1, square_to_pos(csq(4, 5)), false, false, 400);
    assert_eq!(um, Some((e7, e8, Some(Role::Bishop))));
    assert!(g.promotable.promoting.is_none());
}

#[test]
fn chooser_consumes_the_cancelling_press() {
    let mut g = Ground::new(0);
    g.update(GroundMsg::SetPos(promotion_pos()), 10);
    let e7 = csq(4, 6);
    let e8 = csq(4, 7);
    g.button_press(1, square_to_pos(e7), false, false, 300);
    g.motion(square_to_pos(e8), 720, 310);
    g.button_release(square_to_pos(e8), 320);
    // a press outside the cells cancels, emits nothing, and is consumed:
    // it neither selects a piece nor starts a drag nor draws
    let (um, sc) = g.button_press(1, square_to_pos(csq(0, 0)), false, false, 400);
    assert_eq!(um, None);
    assert_eq!(sc, None);
    assert!(g.promotable.promoting.is_none());
    assert_eq!(g.pieces.selected, None);
    assert!(g.pieces.drag.is_none());
    // the pawn glides back from the destination toward its square
    let f = g.pieces.figurine_at(e7).unwrap();
    assert_eq!(f.start, square_to_pos(e8));
}

#[test]
fn new_snapshot_force_cancels_a_stale_chooser() {
    let mut g = Ground::new(0);
    g.update(GroundMsg::SetPos(promotion_pos()), 10);
    let e7 = csq(4, 6);
    let e8 = csq(4, 7);
    g.button_press(1, square_to_pos(e7), false, false, 300);
    g.motion(square_to_pos(e8), 720, 310);
    g.button_release(square_to_pos(e8), 320);
    assert!(g.promotable.promoting.is_some());
    // the host pushes a position without that promotion
    g.update(GroundMsg::SetPos(starting_pos_with_e4()), 500);
    assert!(g.promotable.promoting.is_none());
}

#[test]
fn set_pos_updates_hints_and_board() {
    let mut g = Ground::new(0);
    let e2 = csq(4, 1);
    let e4 = csq(4, 3);
    let pos = starting_pos_with_e4()
        .with_check(csq(4, 0))
        .with_last_move((e2, e4));
    g.update(GroundMsg::SetPos(pos), 10);
    assert_eq!(g.board_state.check, Some(csq(4, 0)));
    assert_eq!(g.board_state.last_move, Some((e2, e4)));
    assert_eq!(g.board_state.turn, Some(Color::White));
    assert_eq!(g.board_state.legals.len(), 3);
    assert!(g.pieces.occupied(e2));
}

#[test]
fn set_board_clears_hints() {
    let mut g = Ground::new(0);
    g.update(GroundMsg::SetPos(starting_pos_with_e4()), 10);
    g.update(GroundMsg::SetBoard(Board::empty()), 20);
    assert_eq!(g.board_state.check, None);
    assert_eq!(g.board_state.turn, None);
    assert_eq!(g.board_state.legals.len(), 0);
    // all figurines fade out, none is live
    assert!(g.pieces.figurines.iter().all(|f| f.fading));
}

#[test]
fn flip_toggles_orientation() {
    let mut g = Ground::new(0);
    assert_eq!(g.board_state.orientation, Color::White);
    g.update(GroundMsg::Flip, 5);
    assert_eq!(g.board_state.orientation, Color::Black);
    g.update(GroundMsg::Flip, 6);
    assert_eq!(g.board_state.orientation, Color::White);
    g.update(GroundMsg::SetOrientation(Color::Black), 7);
    assert_eq!(g.board_state.orientation, Color::Black);
}

#[test]
fn draw_order_layers_fading_resting_moving() {
    let mut b1 = Board::empty();
    let wq = Piece { color: Color::White, role: Role::Queen };
    let br = Piece { color: Color::Black, role: Role::Rook };
    b1.set_piece_at(csq(0, 0), Some(wq));
    b1.set_piece_at(csq(7, 7), Some(br));
    let mut g = Ground::new(0);
    g.update(GroundMsg::SetBoard(b1), 10);
    // let every entrance animation finish
    g.queue_animation(1000);
    // the queen captures the rook: the rook fades, the queen animates
    let mut b2 = Board::empty();
    b2.set_piece_at(csq(7, 7), Some(wq));
    g.update(GroundMsg::SetBoard(b2), 2000);
    let order = g.draw_order();
    // figurine order in the vector: fading rook first, then nothing at
    // rest, then the moving queen on top
    let fading_idx: Vec<usize> = g
        .pieces
        .figurines
        .iter()
        .enumerate()
        .filter(|(_, f)| f.fading)
        .map(|(i, _)| i)
        .collect();
    assert_eq!(order.len(), g.pieces.figurines.len());
    assert_eq!(order[0], fading_idx[0]);
    let last = order[order.len() - 1];
    assert!(!g.pieces.figurines[last].fading);
    assert!(g.pieces.figurines[last].elapsed < 1000);
}

#[test]
fn animation_scheduling_flag() {
    let mut g = Ground::new(0);
    assert!(g.is_animating());
    g.queue_animation(500);
    assert!(!g.is_animating());
    g.update(GroundMsg::SetPos(starting_pos_with_e4()), 600);
    let e2 = csq(4, 1);
    let mut b = Board::starting();
    b.set_piece_at(e2, None);
    b.set_piece_at(csq(4, 3), Some(Piece { color: Color::White, role: Role::Pawn }));
    g.update(GroundMsg::SetBoard(b), 900);
    assert!(g.is_animating());
    g.queue_animation(2000);
    assert!(!g.is_animating());
}

#[test]
fn right_drag_draws_through_the_controller() {
    let mut g = Ground::new(0);
    g.update(GroundMsg::SetPos(starting_pos_with_e4()), 10);
    let e2 = csq(4, 1);
    let e4 = csq(4, 3);
    let (um, sc) = g.button_press(3, square_to_pos(e2), false, false, 300);
    assert_eq!(um, None);
    assert_eq!(sc, None);
    g.motion(square_to_pos(e4), 720, 310);
    let (um, sc) = g.button_release(square_to_pos(e4), 320);
    assert_eq!(um, None);
    let shapes = sc.unwrap();
    assert_eq!(shapes.len(), 1);
    assert!(shapes[0].is_arrow());
    // a plain left click clears the annotation
    let (_, sc) = g.button_press(1, square_to_pos(csq(0, 4)), false, false, 400);
    assert_eq!(sc.unwrap().len(), 0);
}

#[test]
fn chooser_hides_the_promoting_figurine_from_drawing() {
    let mut g = Ground::new(0);
    g.update(GroundMsg::SetPos(promotion_pos()), 10);
    let e7 = csq(4, 6);
    let e8 = csq(4, 7);
    // the lone pawn is drawn while idle
    assert_eq!(g.draw_order().len(), g.pieces.figurines.len());
    g.button_press(1, square_to_pos(e7), false, false, 300);
    g.motion(square_to_pos(e8), 720, 310);
    g.button_release(square_to_pos(e8), 320);
    assert!(g.promotable.promoting.is_some());
    // while the chooser substitutes for it, nothing on its origin square
    // is drawn at all (neither the pawn nor a fade-out under it)
    let visible = g.pieces.figurines.iter().filter(|f| f.square != e7).count();
    assert!(visible < g.pieces.figurines.len());
    assert_eq!(g.draw_order().len(), visible);
}

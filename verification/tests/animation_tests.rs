use chessground::geom::square_to_pos;
use chessground::{Board, BoardPos, Color, Piece, Pieces, Role, Square};

fn asq(file: u8, rank: u8) -> Square {
    Square::new(file, rank)
}

fn wpawn() -> Piece {
    Piece { color: Color::White, role: Role::Pawn }
}

fn bpawn() -> Piece {
    Piece { color: Color::Black, role: Role::Pawn }
}

fn starting_after_e4() -> Board {
    let mut b = Board::starting();
    b.set_piece_at(asq(4, 1), None);
    b.set_piece_at(asq(4, 3), Some(wpawn()));
    b
}

#[test]
fn single_move_diff_keeps_the_figurine() {
    // placements differing by one pawn move: the figurine glides, it is
    // not destroyed and recreated
    let mut p = Pieces::new(0);
    assert_eq!(p.figurines.len(), 32);
    let b2 = starting_after_e4();
    p.set_board(&b2, 300);
    assert_eq!(p.figurines.len(), 32);
    assert!(!p.occupied(asq(4, 1)));
    assert!(p.occupied(asq(4, 3)));
    let f = p.figurine_at(asq(4, 3)).unwrap();
    assert_eq!(f.piece(), wpawn());
    // it animates from where it stood on e2
    assert_eq!(f.start, square_to_pos(asq(4, 1)));
    assert_eq!(f.elapsed, 0);
    assert_eq!(f.time, 300);
    assert!(!f.fading);
}

#[test]
fn capture_fades_and_is_collected_only_when_invisible() {
    let mut b1 = Board::empty();
    b1.set_piece_at(asq(4, 3), Some(wpawn())); // e4
    b1.set_piece_at(asq(3, 4), Some(bpawn())); // d5
    let mut p = Pieces::new_from_board(&b1, 0);
    assert_eq!(p.figurines.len(), 2);

    // exd5: the white pawn moves onto d5, the black pawn is captured
    let mut b2 = Board::empty();
    b2.set_piece_at(asq(3, 4), Some(wpawn()));
    p.set_board(&b2, 50);

    assert_eq!(p.figurines.len(), 2);
    let victor = p.figurine_at(asq(3, 4)).unwrap();
    assert_eq!(victor.piece(), wpawn());
    // occupied never reports the fading victim
    assert!(p.occupied(asq(3, 4)));
    assert!(!p.occupied(asq(4, 3)));
    let victim: Vec<_> = p.figurines.iter().filter(|f| f.fading).collect();
    assert_eq!(victim.len(), 1);
    assert!(victim[0].replaced); // its square is occupied again: half-opacity fade
    assert_eq!(victim[0].alpha(), 500);
    assert_eq!(victim[0].piece(), bpawn());

    // while the fade is visible, updates keep the figurine
    let b3 = b2.clone();
    p.set_board(&b3, 60);
    assert_eq!(p.figurines.len(), 2);

    // once the fade has completed, the next update collects it
    p.queue_animation(50 + 200);
    let faded: Vec<_> = p.figurines.iter().filter(|f| f.fading).collect();
    assert_eq!(faded[0].alpha(), 0);
    p.set_board(&b3, 300);
    assert_eq!(p.figurines.len(), 1);
    assert!(!p.figurines[0].fading);
}

#[test]
fn repeated_snapshot_is_idempotent() {
    let mut p = Pieces::new(0);
    let b2 = starting_after_e4();
    p.set_board(&b2, 300);
    let before: Vec<_> = p.figurines.clone();
    // feeding the same placement again must not create figurines, restart
    // animations or move anything
    p.set_board(&b2, 360);
    assert_eq!(p.figurines.len(), before.len());
    for (a, b) in before.iter().zip(p.figurines.iter()) {
        assert_eq!(a.square, b.square);
        assert_eq!(a.piece, b.piece);
        assert_eq!(a.start, b.start);
        assert_eq!(a.elapsed, b.elapsed);
        assert_eq!(a.time, b.time);
        assert_eq!(a.fading, b.fading);
    }
}

#[test]
fn animation_clock_and_position() {
    let mut p = Pieces::new(0);
    let b2 = starting_after_e4();
    p.set_board(&b2, 300);
    // after the full 200 ms the pawn has arrived on e4
    p.queue_animation(500);
    let f = p.figurine_at(asq(4, 3)).unwrap();
    assert_eq!(f.elapsed, 1000);
    assert_eq!(f.pos(), square_to_pos(asq(4, 3)));
    // a second tick past completion changes nothing
    let mut p2 = p.clone();
    p2.queue_animation(700);
    assert_eq!(p2.figurine_at(asq(4, 3)).unwrap().elapsed, 1000);
}

#[test]
fn midway_interpolation_is_eased() {
    let mut q = Pieces::new(0);
    let b2 = starting_after_e4();
    q.set_board(&b2, 300);
    q.queue_animation(350); // 50 ms of 200: quarter progress
    let f = q.figurine_at(asq(4, 3)).unwrap();
    assert_eq!(f.elapsed, 250);
    // eased quarter progress is 62 per mille of the way from e2 to e4
    let from = square_to_pos(asq(4, 1));
    let to = square_to_pos(asq(4, 3));
    let expect = BoardPos { x: from.x, y: from.y + (to.y - from.y) * 62 / 1000 };
    assert_eq!(f.pos(), expect);
}

#[test]
fn fresh_piece_appears_without_animation() {
    let mut p = Pieces::new(0);
    let mut b2 = Board::starting();
    // drop an extra queen on d4 out of nowhere
    b2.set_piece_at(asq(3, 3), Some(Piece { color: Color::White, role: Role::Queen }));
    p.set_board(&b2, 40);
    assert_eq!(p.figurines.len(), 33);
    let f = p.figurine_at(asq(3, 3)).unwrap();
    // it rests at its own square center from the start
    assert_eq!(f.start, square_to_pos(asq(3, 3)));
    assert_eq!(f.alpha(), 1000);
}

#[test]
fn nearest_piece_wins_the_match() {
    // two white rooks; the one nearer to the vacated destination moves
    let mut b1 = Board::empty();
    let rook = Piece { color: Color::White, role: Role::Rook };
    b1.set_piece_at(asq(0, 0), Some(rook)); // a1
    b1.set_piece_at(asq(7, 7), Some(rook)); // h8
    let mut p = Pieces::new_from_board(&b1, 0);
    let mut b2 = Board::empty();
    b2.set_piece_at(asq(0, 0), Some(rook));
    b2.set_piece_at(asq(5, 7), Some(rook)); // f8: h8 rook is nearer
    p.set_board(&b2, 300);
    let f = p.figurine_at(asq(5, 7)).unwrap();
    assert_eq!(f.start, square_to_pos(asq(7, 7)));
    // the a1 rook did not move
    assert_eq!(p.figurine_at(asq(0, 0)).unwrap().start, square_to_pos(asq(0, 0)));
}

#[test]
fn tick_reports_the_cells_to_redraw() {
    let mut p = Pieces::new(0);
    p.queue_animation(200); // settle the entrance animations
    let b2 = starting_after_e4();
    p.set_board(&b2, 300);
    let inval = p.queue_animation(350);
    // only the moving pawn is animating: its old cell and its new cell
    assert_eq!(inval.len(), 2);
    assert_eq!(inval[0], chessground::BoardRect { x: 4000, y: 6000, w: 1000, h: 1000 });
    // 50 ms in, the eased pawn has climbed 124 milli units from e2
    assert_eq!(inval[1], chessground::BoardRect { x: 4000, y: 6000 - 124, w: 1000, h: 1000 });
}

use chessground::{Board, BoardState, Color, Move, Piece, Role, Square};

fn bsq(file: u8, rank: u8) -> Square {
    Square::new(file, rank)
}

fn bmv(from: Square, to: Square, promotion: Option<Role>) -> Move {
    Move { from, to, promotion }
}

#[test]
fn starting_position_layout() {
    let b = Board::starting();
    assert_eq!(
        b.piece_at(bsq(0, 0)),
        Some(Piece { color: Color::White, role: Role::Rook })
    );
    assert_eq!(
        b.piece_at(bsq(4, 0)),
        Some(Piece { color: Color::White, role: Role::King })
    );
    assert_eq!(
        b.piece_at(bsq(3, 0)),
        Some(Piece { color: Color::White, role: Role::Queen })
    );
    assert_eq!(
        b.piece_at(bsq(4, 1)),
        Some(Piece { color: Color::White, role: Role::Pawn })
    );
    assert_eq!(
        b.piece_at(bsq(6, 7)),
        Some(Piece { color: Color::Black, role: Role::Knight })
    );
    assert_eq!(
        b.piece_at(bsq(2, 7)),
        Some(Piece { color: Color::Black, role: Role::Bishop })
    );
    assert_eq!(b.piece_at(bsq(4, 4)), None);
    assert_eq!(b.piece_at(bsq(0, 5)), None);
}

#[test]
fn empty_board_and_editing() {
    let mut b = Board::empty();
    for file in 0..8u8 {
        for rank in 0..8u8 {
            assert_eq!(b.piece_at(bsq(file, rank)), None);
        }
    }
    let wq = Piece { color: Color::White, role: Role::Queen };
    b.set_piece_at(bsq(3, 3), Some(wq));
    assert_eq!(b.piece_at(bsq(3, 3)), Some(wq));
    b.set_piece_at(bsq(3, 3), None);
    assert_eq!(b.piece_at(bsq(3, 3)), None);
}

#[test]
fn move_lookup() {
    let e2 = bsq(4, 1);
    let e3 = bsq(4, 2);
    let e4 = bsq(4, 3);
    let g1 = bsq(6, 0);
    let f3 = bsq(5, 2);
    let mut state = BoardState::new();
    state.set_legals(vec![
        bmv(e2, e4, None),
        bmv(e2, e3, None),
        bmv(g1, f3, None),
    ]);
    assert!(state.valid_move(e2, e4));
    assert!(state.valid_move(g1, f3));
    assert!(!state.valid_move(e2, f3));
    assert!(state.legal_move(e2, e4, None));
    assert!(!state.legal_move(e2, e4, Some(Role::Queen)));
}

#[test]
fn move_targets_are_distinct() {
    let e2 = bsq(4, 1);
    let e4 = bsq(4, 3);
    let e3 = bsq(4, 2);
    let mut state = BoardState::new();
    // a duplicated entry must not duplicate the target
    state.set_legals(vec![
        bmv(e2, e4, None),
        bmv(e2, e3, None),
        bmv(e2, e4, None),
    ]);
    let targets = state.move_targets(e2);
    assert_eq!(targets.len(), 2);
    assert!(targets.contains(&e4));
    assert!(targets.contains(&e3));
    assert!(state.move_targets(e4).is_empty());
}

#[test]
fn orientation_and_hints() {
    let mut state = BoardState::new();
    assert_eq!(state.orientation(), Color::White);
    state.set_orientation(Color::Black);
    assert_eq!(state.orientation(), Color::Black);
    state.set_turn(Some(Color::Black));
    assert_eq!(state.turn(), Some(Color::Black));
    state.set_check(Some(bsq(4, 0)));
    assert_eq!(state.check, Some(bsq(4, 0)));
    state.set_last_move(Some((bsq(4, 1), bsq(4, 3))));
    assert_eq!(state.last_move, Some((bsq(4, 1), bsq(4, 3))));
}

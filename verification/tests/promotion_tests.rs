use chessground::geom::square_to_pos;
use chessground::promotable::{hover_color, hover_radius, promotion_roles_vec, Promotable};
use chessground::{Board, Color, Move, Piece, Pieces, Role, Square};

fn psq(file: u8, rank: u8) -> Square {
    Square::new(file, rank)
}

fn promo(from: Square, to: Square, role: Role) -> Move {
    Move { from, to, promotion: Some(role) }
}

fn white_promo_setup() -> (Pieces, Vec<Move>, Square, Square) {
    let mut b = Board::empty();
    let e7 = psq(4, 6);
    let e8 = psq(4, 7);
    b.set_piece_at(e7, Some(Piece { color: Color::White, role: Role::Pawn }));
    let p = Pieces::new_from_board(&b, 0);
    let legals = vec![
        promo(e7, e8, Role::Queen),
        promo(e7, e8, Role::Rook),
        promo(e7, e8, Role::Bishop),
        promo(e7, e8, Role::Knight),
    ];
    (p, legals, e7, e8)
}

#[test]
fn chooser_presents_four_cells_in_order() {
    let (_, legals, e7, e8) = white_promo_setup();
    let roles = promotion_roles_vec(&legals, e7, e8);
    assert_eq!(roles, vec![Role::Queen, Role::Rook, Role::Bishop, Role::Knight]);
}

#[test]
fn chooser_orders_roles_fixed_even_if_list_is_shuffled() {
    let e7 = psq(4, 6);
    let e8 = psq(4, 7);
    let legals = vec![
        promo(e7, e8, Role::Knight),
        promo(e7, e8, Role::Queen),
    ];
    let roles = promotion_roles_vec(&legals, e7, e8);
    assert_eq!(roles, vec![Role::Queen, Role::Knight]);
}

#[test]
fn cell_click_emits_the_cell_role() {
    // cells stack at e8, e7, e6, e5: queen, rook, bishop, knight
    let (mut p, legals, e7, e8) = white_promo_setup();
    let mut chooser = Promotable::new();
    chooser.start(Color::White, e7, e8, 0);
    // the rook cell is one rank below the destination
    let (consumed, emit) = chooser.mouse_down(&mut p, Some(psq(4, 6)), &legals, 5);
    assert!(consumed);
    assert_eq!(emit, Some((e7, e8, Role::Rook)));
    assert!(chooser.promoting.is_none());
}

#[test]
fn destination_cell_is_the_queen() {
    let (mut p, legals, e7, e8) = white_promo_setup();
    let mut chooser = Promotable::new();
    chooser.start(Color::White, e7, e8, 0);
    let (_, emit) = chooser.mouse_down(&mut p, Some(e8), &legals, 5);
    assert_eq!(emit, Some((e7, e8, Role::Queen)));
}

#[test]
fn knight_cell_is_three_below() {
    let (mut p, legals, e7, e8) = white_promo_setup();
    let mut chooser = Promotable::new();
    chooser.start(Color::White, e7, e8, 0);
    let (_, emit) = chooser.mouse_down(&mut p, Some(psq(4, 4)), &legals, 5);
    assert_eq!(emit, Some((e7, e8, Role::Knight)));
}

#[test]
fn click_outside_cells_cancels_without_emitting() {
    let (mut p, legals, e7, e8) = white_promo_setup();
    let mut chooser = Promotable::new();
    chooser.start(Color::White, e7, e8, 0);
    // below the knight cell on the same file: outside the four cells
    let (consumed, emit) = chooser.mouse_down(&mut p, Some(psq(4, 2)), &legals, 5);
    assert!(!consumed);
    assert_eq!(emit, None);
    assert!(chooser.promoting.is_none());
    // the piece glides back toward its own square from the destination
    let f = p.figurine_at(e7).unwrap();
    assert_eq!(f.start, square_to_pos(e8));
    assert_eq!(f.elapsed, 0);
    assert_eq!(f.time, 5);
}

#[test]
fn click_off_file_cancels_too() {
    let (mut p, legals, e7, e8) = white_promo_setup();
    let mut chooser = Promotable::new();
    chooser.start(Color::White, e7, e8, 0);
    let (consumed, emit) = chooser.mouse_down(&mut p, Some(psq(0, 7)), &legals, 5);
    assert!(!consumed);
    assert_eq!(emit, None);
    assert!(chooser.promoting.is_none());
}

#[test]
fn black_promotion_stacks_upward() {
    let mut b = Board::empty();
    let e2 = psq(4, 1);
    let e1 = psq(4, 0);
    b.set_piece_at(e2, Some(Piece { color: Color::Black, role: Role::Pawn }));
    let mut p = Pieces::new_from_board(&b, 0);
    let legals = vec![
        promo(e2, e1, Role::Queen),
        promo(e2, e1, Role::Rook),
        promo(e2, e1, Role::Bishop),
        promo(e2, e1, Role::Knight),
    ];
    let mut chooser = Promotable::new();
    chooser.start(Color::Black, e2, e1, 0);
    // for a black promotion the cells stack from e1 up toward e4
    let (_, emit) = chooser.mouse_down(&mut p, Some(psq(4, 2)), &legals, 5);
    assert_eq!(emit, Some((e2, e1, Role::Bishop)));
}

#[test]
fn stale_chooser_is_force_cancelled() {
    let (_, legals, e7, e8) = white_promo_setup();
    let mut chooser = Promotable::new();
    chooser.start(Color::White, e7, e8, 0);
    chooser.update(&legals);
    assert!(chooser.promoting.is_some());
    // the host replaced the position: the pending move is gone
    let other: Vec<Move> = vec![Move { from: psq(0, 1), to: psq(0, 2), promotion: None }];
    chooser.update(&other);
    assert!(chooser.promoting.is_none());
}

#[test]
fn promoting_square_hides_its_figurine() {
    let (_, _, e7, e8) = white_promo_setup();
    let mut chooser = Promotable::new();
    assert!(!chooser.is_promoting(e7));
    chooser.start(Color::White, e7, e8, 0);
    assert!(chooser.is_promoting(e7));
    assert!(!chooser.is_promoting(e8));
    chooser.cancel();
    assert!(!chooser.is_promoting(e7));
}

#[test]
fn hover_entrance_animation_clock() {
    let (_, _, e7, e8) = white_promo_setup();
    let mut chooser = Promotable::new();
    chooser.start(Color::White, e7, e8, 100);
    // the destination cell starts hovered with a fresh clock
    let h = chooser.promoting.unwrap().hover.unwrap();
    assert_eq!(h.square, e8);
    assert_eq!(h.elapsed, 0);
    chooser.queue_animation(350);
    assert_eq!(chooser.promoting.unwrap().hover.unwrap().elapsed, 250);
    chooser.queue_animation(2000);
    assert_eq!(chooser.promoting.unwrap().hover.unwrap().elapsed, 1000);
}

#[test]
fn hover_follows_the_destination_file() {
    let (_, _, e7, e8) = white_promo_setup();
    let mut chooser = Promotable::new();
    chooser.start(Color::White, e7, e8, 0);
    // motion to another cell on the file moves the hover
    chooser.mouse_move(Some(psq(4, 5)), 40);
    let h = chooser.promoting.unwrap().hover.unwrap();
    assert_eq!(h.square, psq(4, 5));
    assert_eq!(h.since, 40);
    // motion off the file clears it
    chooser.mouse_move(Some(psq(2, 5)), 60);
    assert!(chooser.promoting.unwrap().hover.is_none());
}

#[test]
fn hover_highlight_eases_radius_and_color() {
    assert_eq!(hover_radius(0), 500);
    assert_eq!(hover_radius(1000), 707);
    assert_eq!(hover_color(0), (690, 690, 690));
    assert_eq!(hover_color(1000), (1000, 650, 0));
    // quarter progress: 62 per mille of each span
    assert_eq!(hover_radius(250), 500 + 207 * 62 / 1000);
}

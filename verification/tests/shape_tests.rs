use chessground::{DrawBrush, Drawable, Square};

fn ssq(file: u8, rank: u8) -> Square {
    Square::new(file, rank)
}

fn draw(d: &mut Drawable, from: Square, to: Square, shift: bool, alt: bool) {
    d.mouse_down(3, shift, alt, Some(from));
    d.mouse_move(Some(to));
    d.mouse_up(Some(to));
}

#[test]
fn drawing_an_arrow() {
    let mut d = Drawable::new();
    let e2 = ssq(4, 1);
    let e4 = ssq(4, 3);
    draw(&mut d, e2, e4, false, false);
    let shapes = d.shapes();
    assert_eq!(shapes.len(), 1);
    assert_eq!(shapes[0].orig(), e2);
    assert_eq!(shapes[0].dest(), e4);
    assert_eq!(shapes[0].brush(), DrawBrush::Green);
    assert!(shapes[0].is_arrow());
    assert!(!shapes[0].is_circle());
}

#[test]
fn drawing_a_circle() {
    let mut d = Drawable::new();
    let d4 = ssq(3, 3);
    draw(&mut d, d4, d4, false, false);
    assert_eq!(d.shapes().len(), 1);
    assert!(d.shapes()[0].is_circle());
}

#[test]
fn committing_twice_erases() {
    // shape toggle: the same shape twice in a row leaves zero shapes
    let mut d = Drawable::new();
    let e2 = ssq(4, 1);
    let e4 = ssq(4, 3);
    draw(&mut d, e2, e4, false, false);
    assert_eq!(d.shapes().len(), 1);
    draw(&mut d, e2, e4, false, false);
    assert_eq!(d.shapes().len(), 0);
}

#[test]
fn same_squares_other_brush_keeps_both() {
    // the brush is part of a shape's identity: green then red gives two
    // distinct shapes
    let mut d = Drawable::new();
    let e2 = ssq(4, 1);
    let e4 = ssq(4, 3);
    draw(&mut d, e2, e4, false, false);
    draw(&mut d, e2, e4, true, false);
    let shapes = d.shapes();
    assert_eq!(shapes.len(), 2);
    assert_eq!(shapes[0].brush(), DrawBrush::Green);
    assert_eq!(shapes[1].brush(), DrawBrush::Red);
}

#[test]
fn brush_from_modifiers() {
    let mut d = Drawable::new();
    let a1 = ssq(0, 0);
    draw(&mut d, a1, ssq(1, 0), false, false);
    draw(&mut d, a1, ssq(2, 0), true, false);
    draw(&mut d, a1, ssq(3, 0), false, true);
    draw(&mut d, a1, ssq(4, 0), true, true);
    let shapes = d.shapes();
    assert_eq!(shapes[0].brush(), DrawBrush::Green);
    assert_eq!(shapes[1].brush(), DrawBrush::Red);
    assert_eq!(shapes[2].brush(), DrawBrush::Blue);
    assert_eq!(shapes[3].brush(), DrawBrush::Yellow);
}

#[test]
fn left_click_clears_all_shapes() {
    let mut d = Drawable::new();
    draw(&mut d, ssq(0, 0), ssq(1, 1), false, false);
    draw(&mut d, ssq(2, 2), ssq(3, 3), true, false);
    assert_eq!(d.shapes().len(), 2);
    let changed = d.mouse_down(1, false, false, Some(ssq(5, 5)));
    assert_eq!(changed.unwrap().len(), 0);
    assert_eq!(d.shapes().len(), 0);
    // a further left click reports nothing: there was nothing to clear
    let changed = d.mouse_down(1, false, false, Some(ssq(5, 5)));
    assert!(changed.is_none());
}

#[test]
fn pointer_leaving_the_board_rounds_to_a_circle() {
    let mut d = Drawable::new();
    let c3 = ssq(2, 2);
    d.mouse_down(3, false, false, Some(c3));
    d.mouse_move(Some(ssq(4, 4)));
    d.mouse_move(None);
    d.mouse_up(None);
    assert_eq!(d.shapes().len(), 1);
    assert!(d.shapes()[0].is_circle());
    assert_eq!(d.shapes()[0].dest(), c3);
}

#[test]
fn shapes_changed_event_carries_the_list() {
    let mut d = Drawable::new();
    let e2 = ssq(4, 1);
    let e4 = ssq(4, 3);
    d.mouse_down(3, false, false, Some(e2));
    d.mouse_move(Some(e4));
    let changed = d.mouse_up(Some(e4)).unwrap();
    assert_eq!(changed.len(), 1);
    assert_eq!(changed[0].orig(), e2);
    assert_eq!(changed[0].dest(), e4);
}

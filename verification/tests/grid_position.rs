use rust_othello::GridPosition;

#[test]
fn grid_position_fmt() {
    let pos1 = GridPosition { x: -1, y: 0 };
    let pos2 = GridPosition { x: 10, y: 5 };

    assert_eq!("(-1,0)", pos1.text().as_str());
    assert_eq!("(10,5)", pos2.text().as_str());
}

#[test]
fn add() {
    assert_eq!(GridPosition::new(-1, 0) + GridPosition::new(11, 5), GridPosition::new(10, 5));
}

#[test]
fn sub() {
    assert_eq!(GridPosition::new(-1, 0) - GridPosition::new(11, 5), GridPosition::new(-12, -5));
}

#[test]
fn add_assign() {
    let mut pos1 = GridPosition::new(-1, 0);
    pos1.add_assign(GridPosition::new(11, 5));
    assert_eq!(pos1.x, 10);
    assert_eq!(pos1.y, 5);
}

#[test]
fn sub_assign() {
    let mut pos1 = GridPosition::new(-1, 0);
    pos1.sub_assign(GridPosition::new(11, 5));
    assert_eq!(pos1.x, -12);
    assert_eq!(pos1.y, -5);
}

#[test]
fn fmt_extreme_coordinates() {
    let pos = GridPosition { x: i16::MIN, y: i16::MAX };
    assert_eq!("(-32768,32767)", pos.text().as_str());
}

#[test]
fn into_grid_maps_pixels_to_cells() {
    let pos = GridPosition::new(250, 799);
    let cell = pos.into_grid();
    assert_eq!(cell.x, 2);
    assert_eq!(cell.y, 7);
}

#[test]
fn in_screen_bounds() {
    assert!(GridPosition::new(1, 1).in_screen());
    assert!(GridPosition::new(799, 799).in_screen());
    assert!(!GridPosition::new(0, 5).in_screen());
    assert!(!GridPosition::new(800, 5).in_screen());
    assert!(!GridPosition::new(5, 800).in_screen());
}

#[test]
fn max_min_of_absolute_coordinates() {
    let pos = GridPosition::new(-7, 3);
    assert_eq!(pos.max(), 7);
    assert_eq!(pos.min(), 3);
}

use bittwiddler::bit_access::Coordinate;

#[test]
fn coordinate_ops() {
    let mut c1 = Coordinate::new(1, 2);
    let c2 = Coordinate::new(3, 4);

    assert_eq!(c1.add(c2), Coordinate::new(4, 6));
    c1 = c1.add(c2);
    assert_eq!(c1, Coordinate::new(4, 6));

    assert_eq!(c1.sub(c2), Coordinate::new(1, 2));
    c1 = c1.sub(c2);
    assert_eq!(c1, Coordinate::new(1, 2));
}

#[test]
fn coordinate_offsets() {
    let c = Coordinate::new(5, 5);
    let d = Coordinate::new(2, 3);
    assert_eq!(c.sub_x_add_y(d), Coordinate::new(3, 8));
    assert_eq!(c.add_x_sub_y(d), Coordinate::new(7, 2));
    assert_eq!(Coordinate::default(), Coordinate::new(0, 0));
}

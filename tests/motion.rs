use mandelbrot::motion::{
    move_points, nearest, random_color, random_speeds, DripColor, HEIGHT, WIDTH,
};

#[test]
fn points_move_and_stay_on_the_canvas() {
    let mut points = vec![(10, 10), (0, 5), (799, 599), (400, 300)];
    let speeds = vec![(3, -2), (-3, 1), (3, 3), (0, 0)];
    move_points(&mut points, &speeds);
    assert_eq!(points, vec![(13, 8), (0, 6), (WIDTH, HEIGHT), (400, 300)]);
}

#[test]
fn extra_speeds_are_ignored() {
    let mut points = vec![(1, 1)];
    move_points(&mut points, &vec![(1, 2), (50, 50)]);
    assert_eq!(points, vec![(2, 3)]);
    let mut none: Vec<(i32, i32)> = vec![];
    move_points(&mut none, &vec![]);
    assert!(none.is_empty());
}

#[test]
fn speeds_jitter_within_bounds() {
    let mut speeds = vec![(0, 0), (3, -3), (-2, 2), (1, 1)];
    let draws = vec![(1, -1), (1, -1), (-1, 1), (0, 0)];
    random_speeds(&mut speeds, &draws);
    assert_eq!(speeds, vec![(1, -1), (3, -3), (-3, 3), (1, 1)]);
}

#[test]
fn drip_colors_by_draw() {
    assert_eq!(random_color(0), DripColor::White);
    assert_eq!(random_color(1), DripColor::Red);
    assert_eq!(random_color(2), DripColor::Blue);
    assert_eq!(random_color(3), DripColor::Green);
    assert_eq!(random_color(4), DripColor::Magenta);
    assert_eq!(random_color(5), DripColor::Cyan);
    assert_eq!(random_color(6), DripColor::Yellow);
    assert_eq!(random_color(7), DripColor::White);
}

#[test]
fn nearest_orders_by_distance() {
    let list = vec![(10, 0), (1, 1), (-3, 0), (0, 2), (5, 5)];
    assert_eq!(nearest((0, 0), &list), vec![(1, 1), (0, 2), (-3, 0), (5, 5), (10, 0)]);
    assert_eq!(nearest((10, 0), &list), vec![(10, 0), (5, 5), (1, 1), (0, 2), (-3, 0)]);
    assert!(nearest((0, 0), &vec![]).is_empty());
}

#[test]
fn nearest_keeps_all_points() {
    let list = vec![(3, 4), (4, 3), (3, 4), (0, 0), (i32::MAX, i32::MIN)];
    let r = nearest((0, 0), &list);
    assert_eq!(r.len(), 5);
    assert_eq!(r[0], (0, 0));
    assert_eq!(r[4], (i32::MAX, i32::MIN));
    let mut a = r.clone();
    let mut b = list.clone();
    a.sort();
    b.sort();
    assert_eq!(a, b);
}

#[test]
fn nearest_keeps_order_of_equal_distances() {
    let list = vec![(0, 5), (9, 9), (3, 4), (5, 0), (0, 1), (4, 3)];
    assert_eq!(nearest((0, 0), &list), vec![(0, 1), (0, 5), (3, 4), (5, 0), (4, 3), (9, 9)]);
}

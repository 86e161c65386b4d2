use mandelbrot::color::Rgba;
use mandelbrot::rainbow::Raimbow;

fn rgb(r: u8, g: u8, b: u8) -> Rgba {
    Rgba { r, g, b, a: 255 }
}

#[test]
fn rainbow_steps_one_degree() {
    let mut r = Raimbow::new(0);
    assert_eq!(r.next(), Some(rgb(255, 4, 0)));
    assert_eq!(r.hue, 1);
    let mut r = Raimbow::new(59);
    assert_eq!(r.next(), Some(rgb(255, 255, 0)));
    assert_eq!(r.hue, 60);
}

#[test]
fn rainbow_sectors() {
    let at = |h: u16| Raimbow::new(h - 1).next().unwrap();
    assert_eq!(at(30), rgb(255, 120, 0));
    assert_eq!(at(90), rgb(135, 255, 0));
    assert_eq!(at(150), rgb(0, 255, 120));
    assert_eq!(at(210), rgb(0, 135, 255));
    assert_eq!(at(270), rgb(120, 0, 255));
    assert_eq!(at(330), rgb(255, 0, 135));
    assert_eq!(at(359), rgb(255, 0, 19));
}

#[test]
fn rainbow_wraps_at_a_full_turn() {
    let mut r = Raimbow::new(359);
    assert_eq!(r.next(), Some(rgb(255, 0, 0)));
    assert_eq!(r.hue, 0);
    let mut r = Raimbow::new(1000);
    r.next();
    assert_eq!(r.hue, 0);
}

#[test]
fn rainbow_repeats_every_turn() {
    let mut r = Raimbow::new(17);
    let first: Vec<_> = (0..360).map(|_| r.next().unwrap()).collect();
    let second: Vec<_> = (0..360).map(|_| r.next().unwrap()).collect();
    assert_eq!(first, second);
    assert_eq!(r.hue, 17);
}

use mandelbrot::texture::{into_vec_texture, VecTexture};

fn px(v: u8) -> [u8; 4] {
    [v, v, v, 255]
}

fn grid(w: u8, h: u8) -> VecTexture {
    VecTexture { rows: (0..h).map(|y| (0..w).map(|x| px(y * 10 + x)).collect()).collect() }
}

#[test]
fn texture_size_is_width_then_height() {
    assert_eq!(grid(3, 2).size(), (3, 2));
}

#[test]
fn inline_flattens_rows() {
    let t = grid(2, 2);
    assert_eq!(t.inline(), vec![0, 0, 0, 255, 1, 1, 1, 255, 10, 10, 10, 255, 11, 11, 11, 255]);
    assert_eq!(grid(5, 3).inline().len(), 4 * 5 * 3);
}

#[test]
fn rotate_turns_clockwise() {
    let t = grid(3, 2);
    let r = t.rotate();
    assert_eq!(r.size(), (2, 3));
    assert_eq!(r.rows, vec![vec![px(10), px(0)], vec![px(11), px(1)], vec![px(12), px(2)]]);
}

#[test]
fn four_turns_give_the_texture_back() {
    let t = grid(4, 3);
    let back = t.rotate().rotate().rotate().rotate();
    assert_eq!(back.rows, t.rows);
}

#[test]
fn rotate_fills_short_rows_with_blank() {
    let t = VecTexture { rows: vec![vec![px(1), px(2)], vec![px(3)]] };
    assert_eq!(t.rotate().rows, vec![vec![px(3), px(1)], vec![[0, 0, 0, 0], px(2)]]);
}

#[test]
fn slice_copies_a_rectangle() {
    let t = grid(4, 3);
    let s = t.slice((1, 1, 2, 2));
    assert_eq!(s.rows, vec![vec![px(11), px(12)], vec![px(21), px(22)]]);
    assert_eq!(s.size(), (2, 2));
    assert_eq!(s.inline().len(), 16);
    let inner = s.slice((1, 0, 2, 2));
    assert_eq!(inner.rows, vec![vec![px(12)], vec![px(22)]]);
    let turned = s.rotate();
    assert_eq!(turned.rows, vec![vec![px(21), px(11)], vec![px(22), px(12)]]);
    assert_eq!(s.owned().rows, vec![vec![px(11), px(12)], vec![px(21), px(22)]]);
}

#[test]
fn paint_then_slice_returns_the_painting() {
    let mut t = grid(4, 4);
    let p = VecTexture { rows: vec![vec![px(99), px(98)], vec![px(97), px(96)]] };
    t.paint(&p, (2, 1));
    assert_eq!(t.slice((2, 1, 2, 2)).rows, p.rows);
    assert_eq!(t.rows[0], grid(4, 4).rows[0]);
    assert_eq!(t.rows[1], vec![px(10), px(11), px(99), px(98)]);
    assert_eq!(t.rows[3], grid(4, 4).rows[3]);
    let same = grid(2, 2).owned();
    assert_eq!(same.rows, grid(2, 2).rows);
}

#[test]
fn image_bytes_become_rows() {
    let bytes: Vec<u8> = (1..=18).collect();
    let t = into_vec_texture(&bytes, 2);
    assert_eq!(
        t.rows,
        vec![
            vec![[1, 2, 3, 4], [5, 6, 7, 8]],
            vec![[9, 10, 11, 12], [13, 14, 15, 16]],
            vec![[17, 18, 255, 255]],
        ]
    );
    assert!(into_vec_texture(&vec![], 3).rows.is_empty());
    assert_eq!(into_vec_texture(&vec![7; 8], 5).rows, vec![vec![[7; 4], [7; 4]]]);
}

use mandelbrot::animation::{update_animation_index, AnimationIndex};

#[test]
fn index_advances_without_end() {
    let mut a = AnimationIndex { index: 4, max: None, looping: true };
    update_animation_index(&mut a);
    assert_eq!(a.index, 5);
}

#[test]
fn looping_index_returns_to_zero() {
    let mut a = AnimationIndex { index: 0, max: Some(3), looping: true };
    let seen: Vec<usize> = (0..7)
        .map(|_| {
            update_animation_index(&mut a);
            a.index
        })
        .collect();
    assert_eq!(seen, vec![1, 2, 0, 1, 2, 0, 1]);
}

#[test]
fn non_looping_index_runs_past_its_end() {
    let mut a = AnimationIndex { index: 2, max: Some(3), looping: false };
    update_animation_index(&mut a);
    update_animation_index(&mut a);
    assert_eq!(a.index, 4);
    assert_eq!(a.max, Some(3));
}

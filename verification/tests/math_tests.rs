use mandelbrot::math::Range;

#[test]
fn range_new_keeps_bounds() {
    let r = Range::new(3usize, 9usize);
    assert_eq!(r.start(), 3);
    assert_eq!(r.end(), 9);
}

#[test]
fn range_new_from_tuple_keeps_bounds() {
    let r = Range::new_from_tuple((-2i64, 5i64));
    assert_eq!(r.start(), -2);
    assert_eq!(r.end(), 5);
}

#[test]
fn range_size_is_end_minus_start() {
    assert_eq!(Range::new(3usize, 9usize).size(), 6);
    assert_eq!(Range::new(-4i32, 4i32).size(), 8);
    assert_eq!(Range::new(7u8, 7u8).size(), 0);
}

#[test]
fn range_size_of_float_bounds() {
    let r = Range::new(-2.0f64, 0.5f64);
    assert_eq!(r.size(), 2.5);
}

#[test]
fn range_shift_moves_both_bounds() {
    let mut r = Range::new(10i32, 20i32);
    r.shift(-3);
    assert_eq!((r.start(), r.end()), (7, 17));
    r.shift(5);
    assert_eq!((r.start(), r.end()), (12, 22));
}

#[test]
fn range_shrink_pulls_bounds_inwards() {
    let mut r = Range::new(10usize, 20usize);
    r.shrink(3);
    assert_eq!((r.start(), r.end()), (13, 17));
}

#[test]
fn range_shrink_past_the_middle_inverts() {
    let mut r = Range::new(0i32, 10i32);
    r.shrink(6);
    assert_eq!((r.start(), r.end()), (6, 4));
}

#[test]
fn range_iterable_walks_the_rows() {
    let rows: Vec<usize> = Range::new(2usize, 6usize).iterable().collect();
    assert_eq!(rows, vec![2, 3, 4, 5]);
    assert_eq!(Range::new(4usize, 4usize).iterable().count(), 0);
}

#[test]
fn range_is_copy() {
    let a = Range::new(1u32, 2u32);
    let b = a;
    assert_eq!(a.start(), b.start());
    assert_eq!(a.end(), b.end());
}

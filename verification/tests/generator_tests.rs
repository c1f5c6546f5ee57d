use mandelbrot::assembler::FrameAssembler;
use mandelbrot::generator::get_frame_part;
use mandelbrot::math::Range;
use mandelbrot::partition::partition;

fn escape_time(max_iter: u16, re: f64, im: f64) -> u16 {
    let mut z = (0.0f64, 0.0f64);
    let mut i = 0;
    while z.0 * z.0 + z.1 * z.1 < 4.0 && i < max_iter {
        z = (z.0 * z.0 - z.1 * z.1 + re, 2.0 * z.0 * z.1 + im);
        i += 1;
    }
    i
}

fn axis(first: f64, step: f64, len: usize) -> Vec<f64> {
    let mut out = Vec::new();
    let mut at = first;
    for _ in 0..len {
        out.push(at);
        at += step;
    }
    out
}

#[test]
fn tile_holds_one_count_per_pixel_row_by_row() {
    let columns: Vec<u16> = vec![1, 2, 3];
    let rows: Vec<u16> = vec![10, 20];
    let part = get_frame_part(Range::new(4, 6), &columns, &rows, |x: u16, y: u16| x + y);
    assert_eq!(part.range().start(), 4);
    assert_eq!(part.range().end(), 6);
    assert_eq!(part.vector(), &vec![11u16, 12, 13, 21, 22, 23]);
}

#[test]
fn tile_without_rows_is_empty() {
    let columns: Vec<u16> = vec![1, 2, 3];
    let rows: Vec<u16> = Vec::new();
    let part = get_frame_part(Range::new(7, 7), &columns, &rows, |x: u16, y: u16| x + y);
    assert_eq!(part.vector().len(), 0);
    assert_eq!(part.range().start(), 7);
}

#[test]
fn tile_without_columns_is_empty() {
    let columns: Vec<u8> = Vec::new();
    let rows: Vec<u8> = vec![1, 2];
    let part = get_frame_part(Range::new(0, 2), &columns, &rows, |_x: u8, _y: u8| 9);
    assert_eq!(part.vector().len(), 0);
}

#[test]
fn pixels_are_counted_in_reading_order() {
    let columns: Vec<usize> = vec![0, 1];
    let rows: Vec<usize> = vec![0, 1, 2];
    let seen = std::cell::RefCell::new(Vec::new());
    let part = get_frame_part(Range::new(0, 3), &columns, &rows, |x: usize, y: usize| {
        seen.borrow_mut().push((y, x));
        (10 * y + x) as u16
    });
    assert_eq!(
        seen.into_inner(),
        vec![(0, 0), (0, 1), (1, 0), (1, 1), (2, 0), (2, 1)]
    );
    assert_eq!(part.vector(), &vec![0u16, 1, 10, 11, 20, 21]);
}

#[test]
fn four_by_four_frame_in_one_tile() {
    let (width, height) = (4usize, 4usize);
    let max_iter = 50u16;
    let step = ((0.5f64 - -2.0) / width as f64, (1.0f64 - -1.0) / height as f64);
    assert_eq!(step, (0.625, 0.5));

    let tiles = partition(height, 1);
    assert_eq!(tiles.len(), 1);
    let mut frame = FrameAssembler::new(width, height, 1);
    for lines in tiles.iter() {
        let re_axis = axis(-2.0, step.0, width);
        let im_axis = axis(1.0 - lines.start() as f64 * step.1, -step.1, lines.size());
        let part = get_frame_part(*lines, &re_axis, &im_axis, |re: f64, im: f64| {
            escape_time(max_iter, re, im)
        });
        assert_eq!(part.vector().len(), 16);
        assert!(frame.can_accept(&part));
        frame.accept(&part);
    }
    assert!(frame.is_complete());

    let counts = frame.frame();
    assert_eq!(counts.len(), 16);
    // A pixel stands for the upper left corner of its cell. Three corners of
    // the grid escape; the last pixel stands for (-0.125, -0.5), which lies
    // inside the main cardioid.
    for corner in [0usize, 3, 12] {
        assert!(counts[corner] < max_iter, "corner {corner}");
    }
    assert_eq!(counts[15], max_iter);
    // Row 2 has the imaginary coordinate 0; its columns 2 and 3 have the real
    // coordinates -0.75 and -0.125. Both never escape.
    assert_eq!(counts[2 * width + 2], max_iter);
    assert_eq!(counts[2 * width + 3], max_iter);
    // The origin of the walk, (-2, 1), escapes after one step.
    assert_eq!(counts[0], 1);
}

#[test]
fn tiles_of_a_split_frame_add_up_to_the_frame_of_one_tile() {
    let (width, height) = (6usize, 7usize);
    let max_iter = 40u16;
    let step = (2.5f64 / width as f64, 2.0f64 / height as f64);
    let render = |split: usize| -> Vec<u16> {
        let mut frame = FrameAssembler::new(width, height, split);
        for lines in partition(height, split).iter().rev() {
            let re_axis = axis(-2.0, step.0, width);
            let im_axis: Vec<f64> = lines
                .iterable()
                .map(|row| 1.0 - row as f64 * step.1)
                .collect();
            let part = get_frame_part(*lines, &re_axis, &im_axis, |re: f64, im: f64| {
                escape_time(max_iter, re, im)
            });
            assert!(frame.can_accept(&part));
            frame.accept(&part);
        }
        assert!(frame.is_complete());
        frame.frame().clone()
    };
    let whole = render(1);
    assert_eq!(render(2), whole);
    assert_eq!(render(3), whole);
    assert_eq!(render(7), whole);
}

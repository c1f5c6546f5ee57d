use mandelbrot::math::Range;
use mandelbrot::trans::determine_color;
use mandelbrot::trans::hue_step;
use mandelbrot::trans::Color;
use mandelbrot::trans::FramePart;
use mandelbrot::trans::SurfaceWriter;

fn ramp(len: usize) -> Vec<Color> {
    (0..len)
        .map(|i| Color {
            r: (i + 1) as u8,
            g: (2 * i + 1) as u8,
            b: (3 * i + 1) as u8,
        })
        .collect()
}

#[test]
fn hue_step_is_four_times_the_count() {
    assert_eq!(hue_step(0), 0);
    assert_eq!(hue_step(1), 4);
    assert_eq!(hue_step(250), 1000);
    assert_eq!(hue_step(16383), 65532);
}

#[test]
fn hue_step_keeps_sixteen_bits() {
    assert_eq!(hue_step(16384), 0);
    assert_eq!(hue_step(20000), 14464);
    assert_eq!(hue_step(65535), 65532);
}

#[test]
fn count_at_the_limit_is_black() {
    let ramp = ramp(4);
    assert_eq!(determine_color(50, 50, &ramp), Color { r: 0, g: 0, b: 0 });
    assert_eq!(determine_color(0, 0, &ramp), Color { r: 0, g: 0, b: 0 });
}

#[test]
fn count_below_the_limit_takes_the_ramp() {
    let ramp = ramp(4);
    assert_eq!(determine_color(0, 50, &ramp), Color { r: 1, g: 1, b: 1 });
    assert_eq!(determine_color(3, 50, &ramp), Color { r: 4, g: 7, b: 10 });
}

#[test]
fn frame_part_keeps_rows_and_counts() {
    let part = FramePart::new(Range::new(2, 4), vec![1, 2, 3, 4, 5, 6]);
    assert_eq!(part.range().start(), 2);
    assert_eq!(part.range().end(), 4);
    assert_eq!(part.vector(), &vec![1u16, 2, 3, 4, 5, 6]);
}

#[test]
fn blank_surface_is_all_zero() {
    let surface = SurfaceWriter::new_blank(3, 2);
    assert_eq!(surface.get_size(), (3, 2));
    assert_eq!(surface.pixels(), &vec![0u8; 24]);
}

#[test]
fn surface_over_bytes_needs_four_per_pixel() {
    assert!(SurfaceWriter::new(2, 2, vec![7u8; 16]).is_some());
    assert!(SurfaceWriter::new(2, 2, vec![7u8; 15]).is_none());
    assert!(SurfaceWriter::new(2, 2, vec![7u8; 17]).is_none());
    assert!(SurfaceWriter::new(0, 5, Vec::new()).is_some());
    let surface = SurfaceWriter::new(1, 2, vec![1, 2, 3, 4, 5, 6, 7, 8]).unwrap();
    assert_eq!(surface.get_size(), (1, 2));
    assert_eq!(surface.pixels(), &vec![1u8, 2, 3, 4, 5, 6, 7, 8]);
}

#[test]
fn write_part_paints_blue_green_red_and_skips_the_fourth_byte() {
    let mut surface = SurfaceWriter::new(2, 2, vec![9u8; 16]).unwrap();
    let part = FramePart::new(Range::new(1, 2), vec![0, 2]);
    surface.write_part(&part, 50, &ramp(3));
    assert_eq!(
        surface.pixels(),
        &vec![9u8, 9, 9, 9, 9, 9, 9, 9, 1, 1, 1, 9, 7, 5, 3, 9]
    );
    assert_eq!(surface.get_size(), (2, 2));
}

#[test]
fn write_part_paints_the_limit_black() {
    let mut surface = SurfaceWriter::new(2, 1, vec![9u8; 8]).unwrap();
    let part = FramePart::new(Range::new(0, 1), vec![1, 1000]);
    surface.write_part(&part, 1000, &ramp(2));
    assert_eq!(surface.pixels(), &vec![4u8, 3, 2, 9, 0, 0, 0, 9]);
}

#[test]
fn write_part_of_two_tiles_fills_the_surface() {
    let mut surface = SurfaceWriter::new_blank(2, 2);
    let lower = FramePart::new(Range::new(1, 2), vec![2, 1]);
    let upper = FramePart::new(Range::new(0, 1), vec![0, 3]);
    surface.write_part(&lower, 3, &ramp(3));
    surface.write_part(&upper, 3, &ramp(3));
    assert_eq!(
        surface.pixels(),
        &vec![1u8, 1, 1, 0, 0, 0, 0, 0, 7, 5, 3, 0, 4, 3, 2, 0]
    );
}

#[test]
fn write_part_of_an_empty_tile_changes_nothing() {
    let mut surface = SurfaceWriter::new(1, 1, vec![5u8; 4]).unwrap();
    let part = FramePart::new(Range::new(1, 1), Vec::new());
    surface.write_part(&part, 10, &Vec::new());
    assert_eq!(surface.pixels(), &vec![5u8; 4]);
}

#[test]
fn tile_that_reaches_past_the_surface_cannot_be_painted() {
    let surface = SurfaceWriter::new_blank(2, 2);
    let ramp = ramp(4);
    assert!(surface.can_write_part(&FramePart::new(Range::new(1, 2), vec![0, 1]), 9, &ramp));
    assert!(!surface.can_write_part(&FramePart::new(Range::new(1, 2), vec![0, 1, 2]), 9, &ramp));
    assert!(!surface.can_write_part(&FramePart::new(Range::new(2, 3), vec![0]), 9, &ramp));
    assert!(surface.can_write_part(&FramePart::new(Range::new(2, 3), Vec::new()), 9, &ramp));
    assert!(!surface.can_write_part(
        &FramePart::new(Range::new(usize::MAX, usize::MAX), Vec::new()),
        9,
        &ramp
    ));
}

#[test]
fn count_without_a_colour_cannot_be_painted() {
    let surface = SurfaceWriter::new_blank(2, 2);
    let ramp = ramp(4);
    assert!(surface.can_write_part(&FramePart::new(Range::new(0, 1), vec![3, 9]), 9, &ramp));
    assert!(!surface.can_write_part(&FramePart::new(Range::new(0, 1), vec![3, 4]), 9, &ramp));
    assert!(!surface.can_write_part(&FramePart::new(Range::new(0, 1), vec![10, 0]), 9, &ramp));
}

use meshterm::context::{Cell, Context, FARTHEST};
use meshterm::geometry::Rgb;
use meshterm::raster::{draw_triangle, is_back_facing, ScreenTriangle, ScreenVertex};

fn vertex(x: i64, y: i64, depth: i64) -> ScreenVertex {
    ScreenVertex { x, y, depth }
}

fn triangle(a: (i64, i64, i64), b: (i64, i64, i64), c: (i64, i64, i64)) -> ScreenTriangle {
    ScreenTriangle { a: vertex(a.0, a.1, a.2), b: vertex(b.0, b.1, b.2), c: vertex(c.0, c.1, c.2) }
}

fn cell(intensity: u8) -> Cell {
    Cell { intensity, color: Rgb { r: intensity, g: 0, b: 0 } }
}

fn cleared(width: u16, height: u16) -> Context {
    let mut context = Context::blank(true);
    context.update((width, height), &[]);
    context.clear();
    context
}

fn covered(context: &Context) -> Vec<usize> {
    (0..context.frame_buffer.len()).filter(|i| context.frame_buffer[*i].intensity != 0).collect()
}

#[test]
fn upper_left_half_is_covered_without_the_diagonal() {
    let mut context = cleared(4, 4);
    let t = triangle((0, 0, 7), (1024, 0, 7), (0, 1024, 7));
    assert!(t.is_valid());
    draw_triangle(&mut context, &t, cell(9));
    assert_eq!(covered(&context), vec![0, 1, 2, 4, 5, 8]);
    for i in 0..16 {
        if [0, 1, 2, 4, 5, 8].contains(&i) {
            assert_eq!(context.frame_buffer[i], cell(9));
            assert_eq!(context.z_buffer[i], 7);
        } else {
            assert_eq!(context.frame_buffer[i].intensity, 0);
            assert_eq!(context.z_buffer[i], FARTHEST);
        }
    }
}

#[test]
fn either_winding_covers_the_same_pixels() {
    let mut one = cleared(4, 4);
    let mut other = cleared(4, 4);
    draw_triangle(&mut one, &triangle((0, 0, 7), (1024, 0, 7), (0, 1024, 7)), cell(9));
    draw_triangle(&mut other, &triangle((0, 0, 7), (0, 1024, 7), (1024, 0, 7)), cell(9));
    assert_eq!(one, other);
}

#[test]
fn two_triangles_of_a_quad_cover_each_pixel_once() {
    let first = triangle((0, 0, 1), (1024, 0, 1), (0, 1024, 1));
    let second = triangle((1024, 0, 1), (1024, 1024, 1), (0, 1024, 1));
    let mut one = cleared(4, 4);
    let mut other = cleared(4, 4);
    draw_triangle(&mut one, &first, cell(1));
    draw_triangle(&mut other, &second, cell(2));
    assert_eq!(covered(&other), vec![3, 6, 7, 9, 10, 11, 12, 13, 14, 15]);
    for i in 0..16 {
        let hits = (one.frame_buffer[i].intensity != 0) as u8
            + (other.frame_buffer[i].intensity != 0) as u8;
        assert_eq!(hits, 1);
    }
}

#[test]
fn a_slanted_quad_is_covered_once_too() {
    let a = (100, 60, 1);
    let b = (1900, 300, 1);
    let c = (1700, 1800, 1);
    let d = (-200, 1500, 1);
    let mut whole_first = cleared(8, 8);
    draw_triangle(&mut whole_first, &triangle(a, b, c), cell(1));
    let mut whole_second = cleared(8, 8);
    draw_triangle(&mut whole_second, &triangle(a, c, d), cell(2));
    let mut other_first = cleared(8, 8);
    draw_triangle(&mut other_first, &triangle(a, b, d), cell(1));
    let mut other_second = cleared(8, 8);
    draw_triangle(&mut other_second, &triangle(b, c, d), cell(2));
    let mut total = 0;
    for i in 0..64 {
        let one = whole_first.frame_buffer[i].intensity != 0;
        let two = whole_second.frame_buffer[i].intensity != 0;
        assert!(!(one && two));
        let by_other_diagonal = other_first.frame_buffer[i].intensity != 0
            || other_second.frame_buffer[i].intensity != 0;
        assert!(!(other_first.frame_buffer[i].intensity != 0
            && other_second.frame_buffer[i].intensity != 0));
        assert_eq!(one || two, by_other_diagonal);
        if one || two {
            total += 1;
        }
    }
    assert!(total > 30);
}

#[test]
fn a_centre_on_a_left_edge_is_covered_and_on_a_right_edge_is_not() {
    let mut context = cleared(3, 1);
    let t = triangle((128, 0, 0), (640, 0, 0), (128, 1024, 0));
    draw_triangle(&mut context, &t, cell(5));
    assert_eq!(covered(&context), vec![0, 1]);
    let mut context = cleared(3, 1);
    let t = triangle((640, 0, 0), (640, 1024, 0), (-384, 0, 0));
    draw_triangle(&mut context, &t, cell(5));
    assert_eq!(covered(&context), vec![0, 1]);
}

#[test]
fn a_centre_on_a_top_edge_is_covered_and_on_a_bottom_edge_is_not() {
    let mut context = cleared(1, 3);
    draw_triangle(&mut context, &triangle((-1024, 128, 0), (1024, 128, 0), (0, 2048, 0)), cell(5));
    assert_eq!(covered(&context), vec![0, 1, 2]);
    let mut context = cleared(1, 3);
    draw_triangle(&mut context, &triangle((-1024, 640, 0), (1024, 640, 0), (0, -2048, 0)), cell(5));
    assert_eq!(covered(&context), vec![0, 1]);
}

#[test]
fn a_triangle_without_area_draws_nothing() {
    let mut context = cleared(4, 4);
    let before = context.clone();
    draw_triangle(&mut context, &triangle((0, 0, 1), (512, 512, 1), (1024, 1024, 1)), cell(9));
    assert_eq!(context, before);
    draw_triangle(&mut context, &triangle((300, 300, 1), (300, 300, 1), (300, 300, 1)), cell(9));
    assert_eq!(context, before);
}

#[test]
fn a_triangle_beside_the_viewport_draws_nothing() {
    let mut context = cleared(4, 4);
    let before = context.clone();
    draw_triangle(&mut context, &triangle((2000, 0, 1), (3000, 0, 1), (2000, 1000, 1)), cell(9));
    draw_triangle(&mut context, &triangle((-3000, 0, 1), (-2000, 0, 1), (-3000, 1000, 1)), cell(9));
    draw_triangle(&mut context, &triangle((0, 5000, 1), (1000, 5000, 1), (0, 6000, 1)), cell(9));
    assert_eq!(context, before);
}

#[test]
fn a_triangle_that_spans_the_viewport_is_cut_to_it() {
    let mut context = cleared(3, 2);
    let far = 1i64 << 40;
    draw_triangle(&mut context, &triangle((-far, -far, 3), (far, -far, 3), (0, far, 3)), cell(4));
    assert_eq!(covered(&context), vec![0, 1, 2, 3, 4, 5]);
    assert_eq!(context.z_buffer, vec![3; 6]);
}

#[test]
fn the_nearest_wins_in_either_order() {
    let near = triangle((0, 0, 50), (2048, 0, 50), (0, 2048, 50));
    let far = triangle((0, 0, 100), (2048, 0, 100), (0, 2048, 100));
    let mut one = cleared(4, 4);
    draw_triangle(&mut one, &near, cell(1));
    draw_triangle(&mut one, &far, cell(2));
    let mut other = cleared(4, 4);
    draw_triangle(&mut other, &far, cell(2));
    draw_triangle(&mut other, &near, cell(1));
    assert_eq!(one, other);
    assert_eq!(one.z_buffer, vec![50; 16]);
    assert_eq!(one.frame_buffer, vec![cell(1); 16]);
}

#[test]
fn depth_is_tested_pixel_by_pixel() {
    let slanted = triangle((0, 0, 0), (2048, 0, 2048), (0, 2048, 0));
    let level = triangle((0, 0, 500), (2048, 0, 500), (0, 2048, 500));
    for order in 0..2 {
        let mut context = cleared(4, 4);
        if order == 0 {
            draw_triangle(&mut context, &slanted, cell(1));
            draw_triangle(&mut context, &level, cell(2));
        } else {
            draw_triangle(&mut context, &level, cell(2));
            draw_triangle(&mut context, &slanted, cell(1));
        }
        for y in 0..4 {
            assert_eq!(&context.z_buffer[4 * y..4 * y + 4], &[128, 384, 500, 500]);
            assert_eq!(&context.frame_buffer[4 * y..4 * y + 4], &[cell(1), cell(1), cell(2), cell(2)]);
        }
    }
}

#[test]
fn at_equal_depth_the_first_stays() {
    let t = triangle((0, 0, 50), (2048, 0, 50), (0, 2048, 50));
    let mut context = cleared(2, 2);
    draw_triangle(&mut context, &t, cell(1));
    draw_triangle(&mut context, &t, cell(2));
    assert_eq!(context.frame_buffer, vec![cell(1); 4]);
    let mut context = cleared(2, 2);
    draw_triangle(&mut context, &t, cell(2));
    draw_triangle(&mut context, &t, cell(1));
    assert_eq!(context.frame_buffer, vec![cell(2); 4]);
}

#[test]
fn interpolated_depth_rounds_down() {
    let mut context = cleared(1, 1);
    draw_triangle(&mut context, &triangle((0, 0, 0), (300, 0, 1), (0, 300, 0)), cell(1));
    assert_eq!(context.z_buffer, vec![0]);
    let mut context = cleared(1, 1);
    draw_triangle(&mut context, &triangle((0, 0, 0), (300, 0, -1), (0, 300, 0)), cell(1));
    assert_eq!(context.z_buffer, vec![-1]);
}

#[test]
fn limits_of_screen_triangles() {
    let limit = 1i64 << 43;
    assert!(triangle((limit, -limit, 1 << 34), (0, 0, -(1 << 34)), (1, 1, 1)).is_valid());
    assert!(!triangle((limit + 1, 0, 0), (0, 0, 0), (1, 1, 1)).is_valid());
    assert!(!triangle((0, 0, 0), (0, -limit - 1, 0), (1, 1, 1)).is_valid());
    assert!(!triangle((0, 0, 0), (0, 0, 0), (1, 1, (1 << 34) + 1)).is_valid());
}

#[test]
fn faces_that_run_clockwise_on_the_screen_show_their_back() {
    assert!(is_back_facing(&triangle((0, 0, 0), (1024, 0, 0), (0, 1024, 0))));
    assert!(!is_back_facing(&triangle((0, 0, 0), (0, 1024, 0), (1024, 0, 0))));
    assert!(!is_back_facing(&triangle((0, 0, 0), (512, 512, 0), (1024, 1024, 0))));
}

use way_cooler::border::{
    bottom_border_rect, calculate_stride, expand_geometry, left_border_rect, right_border_rect,
    top_border_rect, Color,
};
use way_cooler::containers::{Geometry, Point, Size};
use way_cooler::draw;

#[test]
fn border_test_calculate_stride() {
    let test_data = [
        (100, 400),
        (200, 800),
        (300, 1200),
        (400, 1600),
        (500, 2000),
        (600, 2400),
        (700, 2800),
        (800, 3200),
        (900, 3600),
    ];
    for &(width, stride) in test_data.iter() {
        assert_eq!(calculate_stride(width), stride);
    }
}

#[test]
fn old_border_test_calculate_stride() {
    let test_data = [
        (100, 400),
        (200, 800),
        (300, 1200),
        (400, 1600),
        (500, 2000),
        (600, 2400),
        (700, 2800),
        (800, 3200),
        (900, 3600),
    ];
    for &(width, stride) in test_data.iter() {
        assert_eq!(calculate_stride(width), stride);
    }
}

fn geom(x: i32, y: i32, w: u32, h: u32) -> Geometry {
    Geometry {
        origin: Point { x, y },
        size: Size { w, h },
    }
}

#[test]
fn border_color_channels() {
    let c = Color::new(7, 80, 255);
    assert_eq!(c.red, 7);
    assert_eq!(c.green, 80);
    assert_eq!(c.blue, 255);
}

#[test]
fn draw_color_is_opaque() {
    let c = draw::Color::solid_color(1, 2, 3);
    assert_eq!(c.red, 1);
    assert_eq!(c.green, 2);
    assert_eq!(c.blue, 3);
    assert_eq!(c.alpha, 255);
}

#[test]
fn expand_geometry_grows_all_sides() {
    let g = expand_geometry(geom(100, 200, 300, 400), 10);
    assert_eq!(g, geom(95, 195, 310, 410));
}

#[test]
fn border_rects_around_view() {
    // a 100x100 view inset by a 5-pixel border inside a 110x110 outer box
    let outer = geom(0, 0, 110, 110);
    let view = geom(5, 5, 100, 100);
    assert_eq!(top_border_rect(outer, view), Some(geom(0, 0, 110, 5)));
    assert_eq!(bottom_border_rect(outer, view), Some(geom(0, 105, 110, 5)));
    assert_eq!(left_border_rect(outer, view), Some(geom(0, 0, 5, 110)));
    assert_eq!(right_border_rect(outer, view), Some(geom(105, 0, 5, 110)));
}

#[test]
fn border_rects_absent_without_gap() {
    // the view fills the outer box: no border strip has positive area
    let outer = geom(0, 0, 100, 100);
    let view = geom(0, 0, 100, 100);
    assert_eq!(top_border_rect(outer, view), None);
    assert_eq!(bottom_border_rect(outer, view), None);
    assert_eq!(left_border_rect(outer, view), None);
    assert_eq!(right_border_rect(outer, view), None);
}

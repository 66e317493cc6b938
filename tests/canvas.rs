use tiny_pao::{Canvas, Color, Position, Size};

fn pack(c: Color) -> u32 {
    Color::to_argb(c.a, c.r, c.g, c.b)
}

fn size(width: u32, height: u32) -> Size {
    Size { width, height }
}

fn pos(x: u32, y: u32) -> Position {
    Position { x, y }
}

/// Inclusion test for local pixel (x, y) of a w by h box with clamped radius r: the offset is
/// taken from the corner square's inner corner pixel, r - 1 inward.
fn expected_covers(w: u32, h: u32, r: u32, x: u32, y: u32) -> bool {
    let (w, h, r, x, y) = (w as i64, h as i64, r as i64, x as i64, y as i64);
    let (dx, dy) = if x < r && y < r {
        (r - 1 - x, r - 1 - y)
    } else if x >= w - r && y < r {
        (x - (w - r), r - 1 - y)
    } else if x < r && y >= h - r {
        (r - 1 - x, y - (h - r))
    } else if x >= w - r && y >= h - r {
        (x - (w - r), y - (h - r))
    } else {
        (0, 0)
    };
    dx * dx + dy * dy <= r * r
}

#[test]
fn create_fills_every_slot_with_background() {
    let bg = Color::argb(0x80, 1, 2, 3);
    let c = Canvas::new(size(7, 5), bg);
    assert_eq!(c.width(), 7);
    assert_eq!(c.height(), 5);
    assert_eq!(c.buffer().len(), 35);
    assert!(c.buffer().iter().all(|&v| v == 0x8001_0203));
}

#[test]
fn create_zero_area_has_empty_buffer() {
    let mut c = Canvas::new(size(0, 4), Color::rgb(9, 9, 9));
    assert!(c.buffer().is_empty());
    c.draw_pixel(pos(0, 0), Color::rgb(1, 1, 1));
    assert!(c.buffer().is_empty());
}

#[test]
fn pack_places_alpha_highest() {
    assert_eq!(Color::to_argb(0x12, 0x34, 0x56, 0x78), 0x1234_5678);
    assert_eq!(Color::rgb(255, 0, 0).to_u32(), 0xffff_0000);
    assert_eq!(Color::rgb(0, 0, 255).to_u32(), 0xff00_00ff);
}

#[test]
fn unpack_reads_each_channel() {
    assert_eq!(Color::from_argb(0x1234_5678), Color::argb(0x12, 0x34, 0x56, 0x78));
}

#[test]
fn draw_pixel_in_bounds_sets_one_slot() {
    let bg = Color::rgb(0, 0, 0);
    let red = Color::rgb(255, 0, 0);
    let mut c = Canvas::new(size(6, 4), bg);
    c.draw_pixel(pos(5, 2), red);
    for (i, &v) in c.buffer().iter().enumerate() {
        if i == 2 * 6 + 5 {
            assert_eq!(v, pack(red));
        } else {
            assert_eq!(v, pack(bg));
        }
    }
}

#[test]
fn draw_pixel_out_of_bounds_changes_nothing() {
    let bg = Color::rgb(10, 20, 30);
    let mut c = Canvas::new(size(6, 4), bg);
    let before = c.buffer().to_vec();
    c.draw_pixel(pos(6, 0), Color::rgb(255, 0, 0));
    c.draw_pixel(pos(0, 4), Color::rgb(255, 0, 0));
    c.draw_pixel(pos(u32::MAX, u32::MAX), Color::rgb(255, 0, 0));
    assert_eq!(c.buffer(), &before[..]);
}

#[test]
fn clear_overwrites_everything() {
    let mut c = Canvas::new(size(8, 3), Color::rgb(0, 0, 0));
    c.draw_rect(pos(1, 1), size(3, 2), Color::rgb(1, 2, 3));
    let white = Color::rgb(255, 255, 255);
    c.clear(white);
    assert_eq!(c.buffer().len(), 24);
    assert!(c.buffer().iter().all(|&v| v == pack(white)));
}

#[test]
fn clear_zero_area_canvas() {
    let mut c = Canvas::new(size(0, 0), Color::rgb(0, 0, 0));
    c.clear(Color::rgb(1, 1, 1));
    assert!(c.buffer().is_empty());
}

#[test]
fn resize_refills_with_constructor_background() {
    let bg = Color::rgb(12, 34, 56);
    let mut c = Canvas::new(size(4, 4), bg);
    c.draw_rect(pos(0, 0), size(4, 4), Color::rgb(255, 0, 0));
    c.clear(Color::rgb(0, 255, 0));
    c.resize(size(3, 9));
    assert_eq!(c.width(), 3);
    assert_eq!(c.height(), 9);
    assert_eq!(c.buffer().len(), 27);
    assert!(c.buffer().iter().all(|&v| v == pack(bg)));
}

#[test]
fn resize_to_zero_area() {
    let mut c = Canvas::new(size(4, 4), Color::rgb(0, 0, 0));
    c.resize(size(5, 0));
    assert!(c.buffer().is_empty());
}

#[test]
fn fill_rect_on_blank_canvas() {
    let bg = Color::rgb(0, 0, 0);
    let red = Color::rgb(255, 0, 0);
    let mut c = Canvas::new(size(100, 100), bg);
    c.draw_rect(pos(0, 0), size(50, 50), red);
    let mut reds = 0;
    for y in 0..100u32 {
        for x in 0..100u32 {
            let v = c.buffer()[(y * 100 + x) as usize];
            if x < 50 && y < 50 {
                assert_eq!(v, pack(red));
                reds += 1;
            } else {
                assert_eq!(v, pack(bg));
            }
        }
    }
    assert_eq!(reds, 2500);
}

#[test]
fn fill_rect_is_clipped_at_the_edges() {
    let bg = Color::rgb(0, 0, 0);
    let blue = Color::rgb(0, 0, 255);
    let mut c = Canvas::new(size(5, 5), bg);
    c.draw_rect(pos(3, 4), size(10, 10), blue);
    c.draw_rect(pos(u32::MAX - 1, 0), size(4, 4), blue);
    for y in 0..5u32 {
        for x in 0..5u32 {
            let expected = if x >= 3 && y == 4 { blue } else { bg };
            assert_eq!(c.buffer()[(y * 5 + x) as usize], pack(expected));
        }
    }
}

#[test]
fn fill_rect_empty_size_writes_nothing() {
    let bg = Color::rgb(0, 0, 0);
    let mut c = Canvas::new(size(5, 5), bg);
    c.draw_rect(pos(1, 1), size(0, 3), Color::rgb(1, 1, 1));
    c.draw_rect(pos(1, 1), size(3, 0), Color::rgb(1, 1, 1));
    assert!(c.buffer().iter().all(|&v| v == pack(bg)));
}

#[test]
fn fill_circle_matches_inclusion_test() {
    let bg = Color::rgb(0, 0, 0);
    let red = Color::rgb(255, 0, 0);
    let mut c = Canvas::new(size(20, 20), bg);
    c.draw_circle(pos(0, 0), size(10, 10), red);
    // Radius min(10, 10) / 2 = 5; pixel (0, 0) is offset (4, 4) from the inner corner pixel (4, 4).
    assert_eq!(c.buffer()[0], pack(bg));
    assert_eq!(c.buffer()[20], pack(red));
    assert_eq!(c.buffer()[5 * 20 + 5], pack(red));
    for y in 0..20u32 {
        for x in 0..20u32 {
            let inside = x < 10 && y < 10 && expected_covers(10, 10, 5, x, y);
            let expected = if inside { red } else { bg };
            assert_eq!(c.buffer()[(y * 20 + x) as usize], pack(expected), "pixel ({x}, {y})");
        }
    }
}

#[test]
fn fill_circle_first_row_exact() {
    let mut c = Canvas::new(size(10, 10), Color::rgb(0, 0, 0));
    c.draw_circle(pos(0, 0), size(10, 10), Color::rgb(255, 255, 255));
    let row: Vec<bool> = (0..10).map(|x| c.buffer()[x] == 0xffff_ffff).collect();
    // Top row: offsets (4 - x, 4) on the left, (x - 5, 4) on the right; dx <= 3 survives.
    let expected = [false, true, true, true, true, true, true, true, true, false];
    assert_eq!(row, expected);
    let row1: Vec<bool> = (0..10).map(|x| c.buffer()[10 + x] == 0xffff_ffff).collect();
    // Second row: dy = 3, so every dx <= 4 survives.
    let expected1 = [true; 10];
    assert_eq!(row1, expected1);
    let painted = c.buffer().iter().filter(|&&v| v == 0xffff_ffff).count();
    // Every pixel but the four corners.
    assert_eq!(painted, 96);
}

#[test]
fn rounded_rect_matches_inclusion_test_with_offset() {
    let bg = Color::rgb(0, 0, 0);
    let green = Color::rgb(0, 255, 0);
    let mut c = Canvas::new(size(30, 20), bg);
    c.draw_rounded_rect(pos(4, 3), size(17, 11), green, 4);
    for y in 0..20u32 {
        for x in 0..30u32 {
            let inside = (4..21).contains(&x)
                && (3..14).contains(&y)
                && expected_covers(17, 11, 4, x - 4, y - 3);
            let expected = if inside { green } else { bg };
            assert_eq!(c.buffer()[(y * 30 + x) as usize], pack(expected), "pixel ({x}, {y})");
        }
    }
}

#[test]
fn rounded_rect_zero_radius_is_a_rect() {
    let mut a = Canvas::new(size(12, 12), Color::rgb(0, 0, 0));
    let mut b = Canvas::new(size(12, 12), Color::rgb(0, 0, 0));
    a.draw_rounded_rect(pos(2, 1), size(7, 9), Color::rgb(5, 6, 7), 0);
    b.draw_rect(pos(2, 1), size(7, 9), Color::rgb(5, 6, 7));
    assert_eq!(a.buffer(), b.buffer());
}

#[test]
fn oversized_radius_equals_clamped_radius() {
    for &(w, h) in &[(10u32, 10u32), (9, 14), (21, 6), (1, 1), (2, 3)] {
        let clamp = w.min(h) / 2;
        for radius in [clamp + 1, clamp + 7, 360, u32::MAX] {
            let mut a = Canvas::new(size(30, 30), Color::rgb(0, 0, 0));
            let mut b = Canvas::new(size(30, 30), Color::rgb(0, 0, 0));
            a.draw_rounded_rect(pos(3, 2), size(w, h), Color::rgb(200, 100, 50), radius);
            b.draw_rounded_rect(pos(3, 2), size(w, h), Color::rgb(200, 100, 50), clamp);
            assert_eq!(a.buffer(), b.buffer());
        }
    }
}

#[test]
fn circle_is_rounded_rect_with_large_radius() {
    let mut a = Canvas::new(size(40, 40), Color::rgb(0, 0, 0));
    let mut b = Canvas::new(size(40, 40), Color::rgb(0, 0, 0));
    a.draw_circle(pos(5, 7), size(23, 17), Color::rgb(1, 2, 3));
    b.draw_rounded_rect(pos(5, 7), size(23, 17), Color::rgb(1, 2, 3), 360);
    assert_eq!(a.buffer(), b.buffer());
}

#[test]
fn pixels_round_trip_through_unpacking() {
    let colors = [
        (pos(0, 0), Color::argb(0x00, 0x00, 0x00, 0x00)),
        (pos(3, 1), Color::argb(0xff, 0x12, 0x80, 0xfe)),
        (pos(1, 2), Color::argb(0x7f, 0xff, 0x01, 0x33)),
        (pos(4, 2), Color::rgb(9, 8, 7)),
    ];
    let mut c = Canvas::new(size(5, 3), Color::rgb(255, 255, 255));
    for &(p, col) in &colors {
        c.draw_pixel(p, col);
    }
    let buf = c.buffer();
    for &(p, col) in &colors {
        let v = buf[(p.y * 5 + p.x) as usize];
        let back = Color::from_argb(v);
        assert_eq!((back.a, back.r, back.g, back.b), (col.a, col.r, col.g, col.b));
        // The same unpacking by shifts that an image encoder performs.
        assert_eq!(
            ((v >> 24) as u8, (v >> 16) as u8, (v >> 8) as u8, v as u8),
            (col.a, col.r, col.g, col.b)
        );
    }
}

#[test]
fn size_area_and_has_area() {
    assert_eq!(size(3, 4).area(), Some(12));
    assert_eq!(size(0, 4).area(), Some(0));
    assert!(size(3, 4).has_area());
    assert!(!size(0, 4).has_area());
    assert!(!size(4, 0).has_area());
}

#[test]
fn last_write_at_a_pixel_reads_back() {
    let mut c = Canvas::new(size(4, 4), Color::rgb(0, 0, 0));
    let first = Color::argb(0x11, 0x22, 0x33, 0x44);
    let last = Color::argb(0xa0, 0xb1, 0xc2, 0xd3);
    c.draw_pixel(pos(2, 3), first);
    c.draw_pixel(pos(1, 1), Color::rgb(7, 7, 7));
    c.draw_pixel(pos(2, 3), last);
    c.draw_pixel(pos(9, 3), Color::rgb(1, 1, 1));
    assert_eq!(Color::from_argb(c.buffer()[3 * 4 + 2]), last);
    assert_eq!(Color::from_argb(c.buffer()[4 + 1]), Color::rgb(7, 7, 7));
}

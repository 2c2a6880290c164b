use collager::fixed::{FULL_TURN, HALF_TURN, QUARTER_TURN, UNIT};
use collager::{GenericImage, Lab, LabImage, Laba, LabaImage, Point2};

const ONE: i32 = UNIT as i32;

fn grey(value: i32) -> Lab {
    Lab { l: value, a: 0, b: 0 }
}

fn solid(value: i32) -> Laba {
    Laba { l: value, a: 0, b: 0, alpha: ONE }
}

fn canvas(width: usize, height: usize) -> LabImage {
    GenericImage::repeat(grey(0), width, height)
}

fn lightness(image: &LabImage) -> Vec<i32> {
    image.pixels().iter().map(|pixel| pixel.l).collect()
}

/// An opaque overlay whose pixels are numbered 1, 2, 3, ... row after row.
fn numbered(width: usize, height: usize) -> LabaImage {
    GenericImage::from_fn(width, height, |p: Point2<i32>| solid(1 + p.x + width as i32 * p.y))
}

#[test]
fn overlay_inside_the_canvas() {
    let out = canvas(4, 3).overlay(&numbered(2, 2), Point2 { x: 1, y: 1 });
    assert_eq!(out.width(), 4);
    assert_eq!(out.height(), 3);
    assert_eq!(lightness(&out), vec![0, 0, 0, 0, 0, 1, 2, 0, 0, 3, 4, 0]);
}

#[test]
fn overlay_partly_outside_the_canvas_drops_the_rest() {
    let out = canvas(3, 3).overlay(&numbered(2, 2), Point2 { x: 2, y: 2 });
    assert_eq!(lightness(&out), vec![0, 0, 0, 0, 0, 0, 0, 0, 1]);
    let out = canvas(3, 3).overlay(&numbered(2, 2), Point2 { x: -1, y: -1 });
    assert_eq!(lightness(&out), vec![4, 0, 0, 0, 0, 0, 0, 0, 0]);
    let out = canvas(3, 3).overlay(&numbered(2, 2), Point2 { x: -1, y: 1 });
    assert_eq!(lightness(&out), vec![0, 0, 0, 2, 0, 0, 4, 0, 0]);
}

#[test]
fn overlay_fully_outside_the_canvas_changes_nothing() {
    let before = vec![0; 9];
    for position in [
        Point2 { x: 3, y: 0 },
        Point2 { x: 0, y: 3 },
        Point2 { x: -2, y: 0 },
        Point2 { x: 0, y: -2 },
        Point2 { x: i32::MAX, y: i32::MAX },
        Point2 { x: i32::MIN, y: i32::MIN },
        Point2 { x: i32::MAX, y: i32::MIN },
    ] {
        let out = canvas(3, 3).overlay(&numbered(2, 2), position);
        assert_eq!(out.width(), 3);
        assert_eq!(out.height(), 3);
        assert_eq!(lightness(&out), before);
    }
}

#[test]
fn overlay_rotated_far_outside_the_canvas_changes_nothing() {
    let before = vec![0; 9];
    for position in [
        Point2 { x: 5, y: 0 },
        Point2 { x: 0, y: 5 },
        Point2 { x: -4, y: 0 },
        Point2 { x: 0, y: -4 },
        Point2 { x: i32::MAX, y: i32::MAX },
        Point2 { x: i32::MIN, y: i32::MIN },
        Point2 { x: i32::MAX, y: i32::MIN },
    ] {
        for angle in [0, 1_000_000, 2_500_000, -700_000, i32::MAX, i32::MIN] {
            let turned = canvas(3, 3).overlay_rotated(&numbered(2, 2), position, angle);
            assert_eq!(turned.width(), 3);
            assert_eq!(turned.height(), 3);
            assert_eq!(lightness(&turned), before);
        }
    }
}

#[test]
fn overlay_rotated_beside_the_canvas_can_reach_into_it() {
    // The placement at (-2, 0) lies beside the canvas. Turned by one radian
    // about its middle (-1, 1) it reaches the first column.
    let turned = canvas(3, 3).overlay_rotated(&numbered(2, 2), Point2 { x: -2, y: 0 }, 1_000_000);
    assert_eq!(lightness(&turned), vec![2, 0, 0, 0, 0, 0, 0, 0, 0]);
}

#[test]
fn overlay_larger_than_the_canvas_covers_it() {
    let out = canvas(2, 2).overlay(&numbered(4, 4), Point2 { x: -1, y: -1 });
    assert_eq!(lightness(&out), vec![6, 7, 10, 11]);
}

#[test]
fn overlay_blends_by_the_opacity_of_the_overlay() {
    let base: LabImage = GenericImage::repeat(Lab { l: 100, a: 40, b: -40 }, 2, 1);
    let top: LabaImage =
        GenericImage::from_raw(vec![Laba { l: 0, a: 0, b: 0, alpha: ONE / 2 }, Laba { l: 0, a: 0, b: 0, alpha: 0 }], 2, 1)
            .unwrap();
    let out = base.overlay(&top, Point2 { x: 0, y: 0 });
    assert_eq!(out.pixels(), &[Lab { l: 50, a: 20, b: -20 }, Lab { l: 100, a: 40, b: -40 }]);
}

#[test]
fn overlay_of_an_empty_grid_changes_nothing() {
    let empty: LabaImage = GenericImage::from_raw(Vec::new(), 0, 3).unwrap();
    let out = canvas(2, 2).overlay(&empty, Point2 { x: 0, y: 0 });
    assert_eq!(lightness(&out), vec![0; 4]);
    let out = canvas(2, 2).overlay_rotated(&empty, Point2 { x: 0, y: 0 }, 77);
    assert_eq!(lightness(&out), vec![0; 4]);
}

#[test]
fn overlay_with_alpha_keeps_the_opacity_of_the_base() {
    let base: LabaImage = GenericImage::repeat(Laba { l: 0, a: 0, b: 0, alpha: ONE / 2 }, 3, 1);
    let top: LabaImage = GenericImage::repeat(Laba { l: 90, a: 0, b: -90, alpha: ONE / 2 }, 1, 1);
    let out = base.overlay(&top, Point2 { x: 1, y: 0 });
    assert_eq!(out.width(), 3);
    assert_eq!(
        out.pixels(),
        &[
            Laba { l: 0, a: 0, b: 0, alpha: ONE / 2 },
            Laba { l: 60, a: 0, b: -60, alpha: 750_000 },
            Laba { l: 0, a: 0, b: 0, alpha: ONE / 2 },
        ]
    );
    let beside = out.overlay(&top, Point2 { x: 3, y: 0 });
    assert_eq!(beside.pixels()[2], Laba { l: 0, a: 0, b: 0, alpha: ONE / 2 });
}

#[test]
fn overlay_rotated_by_zero_is_the_plain_overlay() {
    for (w, h) in [(1usize, 1usize), (2, 2), (3, 2), (2, 5), (4, 1)] {
        for position in [
            Point2 { x: 0, y: 0 },
            Point2 { x: 1, y: 2 },
            Point2 { x: -1, y: -1 },
            Point2 { x: 3, y: 4 },
            Point2 { x: -3, y: 2 },
            Point2 { x: 6, y: 6 },
        ] {
            let straight = canvas(5, 6).overlay(&numbered(w, h), position);
            let turned = canvas(5, 6).overlay_rotated(&numbered(w, h), position, 0);
            assert_eq!(lightness(&straight), lightness(&turned));
            let full = canvas(5, 6).overlay_rotated(&numbered(w, h), position, FULL_TURN as i32);
            assert_eq!(lightness(&straight), lightness(&full));
        }
    }
}

#[test]
fn overlay_rotated_by_a_quarter_turn() {
    // The overlay      1 2
    //                  3 4
    // is placed at (1, 1); its middle is the point (2, 2). The pixel for
    // the destination (x, y) is taken from (y - 1, 3 - x) of the overlay,
    // and the bounding box holds the columns 1 and 2.
    let out = canvas(4, 4).overlay_rotated(&numbered(2, 2), Point2 { x: 1, y: 1 }, QUARTER_TURN as i32);
    assert_eq!(lightness(&out), vec![0, 0, 0, 0, 0, 0, 3, 0, 0, 0, 4, 0, 0, 0, 0, 0]);
}

#[test]
fn overlay_rotated_by_half_a_turn() {
    // The pixel for the destination (x, y) is taken from (3 - x, 3 - y) of
    // the overlay, which leaves only the destination (2, 2) inside.
    let out = canvas(4, 4).overlay_rotated(&numbered(2, 2), Point2 { x: 1, y: 1 }, HALF_TURN as i32);
    assert_eq!(lightness(&out), vec![0, 0, 0, 0, 0, 0, 0, 0, 0, 0, 4, 0, 0, 0, 0, 0]);
}

#[test]
fn overlay_rotated_of_a_single_pixel_by_a_quarter_turn() {
    // The middle of the placement at (1, 1) is (1.5, 1.5), and the bounding
    // box of the turned placement holds the destination (1, 1) alone. That
    // destination is turned back to (1, 2), outside the overlay; the
    // destination (2, 1), which is turned back to (1, 1), lies outside the
    // box and is not visited.
    let out = canvas(3, 3).overlay_rotated(&numbered(1, 1), Point2 { x: 1, y: 1 }, QUARTER_TURN as i32);
    assert_eq!(lightness(&out), vec![0; 9]);
}

#[test]
fn overlay_rotated_visits_only_the_bounding_box() {
    // A row of five pixels turned by three quarter turns about its middle
    // stands as a column; the pixels beside the column stay.
    let out =
        canvas(5, 5).overlay_rotated(&numbered(5, 1), Point2 { x: 0, y: 2 }, 3 * QUARTER_TURN as i32);
    assert_eq!(
        lightness(&out),
        vec![0, 0, 0, 0, 0, 0, 0, 5, 0, 0, 0, 0, 4, 0, 0, 0, 0, 3, 0, 0, 0, 0, 2, 0, 0]
    );
    let back =
        canvas(5, 5).overlay_rotated(&numbered(5, 1), Point2 { x: 0, y: 2 }, -(QUARTER_TURN as i32));
    assert_eq!(lightness(&back), lightness(&out));
    // Turned the other way the column falls on the edge of the box that
    // does not belong to it.
    let other = canvas(5, 5).overlay_rotated(&numbered(5, 1), Point2 { x: 0, y: 2 }, QUARTER_TURN as i32);
    assert_eq!(lightness(&other), vec![0; 25]);
}

#[test]
fn overlay_rotated_by_an_eighth_of_a_turn() {
    let out = canvas(6, 6).overlay_rotated(&numbered(4, 3), Point2 { x: 1, y: 1 }, 785_398);
    assert_eq!(
        lightness(&out),
        vec![
            0, 0, 1, 1, 0, 0, 0, 9, 5, 2, 3, 0, 0, 0, 10, 7, 3, 4, 0, 0, 0, 11, 8, 0, 0, 0, 0, 0,
            0, 0, 0, 0, 0, 0, 0, 0
        ]
    );
}

#[test]
fn overlay_rotated_never_faults_at_any_angle() {
    let mut angle: i64 = i32::MIN as i64;
    while angle <= i32::MAX as i64 {
        let out = canvas(6, 5).overlay_rotated(&numbered(4, 3), Point2 { x: -1, y: 2 }, angle as i32);
        assert_eq!(out.width(), 6);
        assert_eq!(out.height(), 5);
        angle += 77_777_777;
    }
    let big = canvas(2, 2).overlay_rotated(&numbered(9, 9), Point2 { x: i32::MAX, y: i32::MIN }, 123_456);
    assert_eq!(lightness(&big), vec![0; 4]);
}

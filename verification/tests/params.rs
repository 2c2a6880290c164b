use collager::fixed::{FULL_TURN, UNIT};
use collager::params::{
    AngleParam, HueParam, ImageState, IndexParam, Node, Parameter, PositionParam, ScaleParam,
    TransparencyParam,
};
use collager::{GenericImage, Lab, LabImage, Laba, LabaImage, Point2, RandomSource};

const ONE: i32 = UNIT as i32;

fn solid(value: i32) -> Laba {
    Laba { l: value, a: 0, b: 0, alpha: ONE }
}

fn numbered(width: usize, height: usize) -> LabaImage {
    GenericImage::from_fn(width, height, |p: Point2<i32>| solid(1 + p.x + width as i32 * p.y))
}

fn canvas(width: usize, height: usize) -> LabImage {
    GenericImage::repeat(Lab { l: 0, a: 0, b: 0 }, width, height)
}

fn lightness(image: &LabImage) -> Vec<i32> {
    image.pixels().iter().map(|pixel| pixel.l).collect()
}

fn staged(image: LabImage, overlay: LabaImage) -> ImageState {
    ImageState { image, add_image: Some(overlay), angle: None }
}

#[test]
fn index_random_draws_an_index_of_the_library() {
    let mut source = RandomSource::with_seed(3);
    assert_eq!(IndexParam::random(5, &mut source), IndexParam { index: 2 });
    assert_eq!(IndexParam::random(5, &mut source), IndexParam { index: 1 });
    assert_eq!(IndexParam::random(1, &mut source), IndexParam { index: 0 });
}

#[test]
fn index_resamples_when_the_draw_is_below_the_temperature() {
    assert!(!IndexParam::resamples(0, 0));
    assert!(IndexParam::resamples(0, 1));
    assert!(IndexParam::resamples(499_999, 500_000));
    assert!(!IndexParam::resamples(500_000, 500_000));
    assert!(IndexParam::resamples(999_999, 1_000_000));
    assert!(IndexParam::resamples(999_999, u32::MAX));
}

#[test]
fn index_neighbor_decides_with_one_draw_and_picks_with_a_second() {
    // The first draw of the seed 1 is 0.657039, the second picks 2 of 5.
    let mut source = RandomSource::with_seed(1);
    let kept = IndexParam { index: 4 }.neighbor(657_039, 5, &mut source);
    assert_eq!(kept, IndexParam { index: 4 });
    assert_eq!(source.state(), 3257665815644502182);
    let mut source = RandomSource::with_seed(1);
    let drawn = IndexParam { index: 4 }.neighbor(657_040, 5, &mut source);
    assert_eq!(drawn, IndexParam { index: 2 });
    assert_eq!(source.state(), 6515331631289004363);
}

#[test]
fn index_neighbor_at_temperature_zero_keeps_the_index() {
    let mut source = RandomSource::with_seed(77);
    for _ in 0..100 {
        assert_eq!(IndexParam { index: 3 }.neighbor(0, 9, &mut source), IndexParam { index: 3 });
    }
}

#[test]
fn index_apply_stages_a_copy_of_the_library_picture() {
    let library = vec![numbered(1, 1), numbered(3, 2)];
    let state = ImageState { image: canvas(2, 2), add_image: None, angle: Some(5) };
    let out = IndexParam { index: 1 }.apply(&library, state);
    let overlay = out.add_image.unwrap();
    assert_eq!(overlay.width(), 3);
    assert_eq!(overlay.height(), 2);
    assert_eq!(overlay.pixels(), library[1].pixels());
    assert_eq!(out.angle, Some(5));
    assert_eq!(lightness(&out.image), vec![0; 4]);
}

#[test]
fn scale_drawn_lies_between_a_half_and_one_and_a_half() {
    assert_eq!(ScaleParam::drawn(0, 0), ScaleParam(Some(Point2 { x: 500_000, y: 500_000 })));
    assert_eq!(
        ScaleParam::drawn(999_999, 250_000),
        ScaleParam(Some(Point2 { x: 1_499_999, y: 750_000 }))
    );
}

#[test]
fn scale_random_draws_only_when_allowed() {
    let mut source = RandomSource::with_seed(1);
    assert_eq!(ScaleParam::random(false, &mut source), ScaleParam(None));
    assert_eq!(source.state(), 1);
    assert_eq!(
        ScaleParam::random(true, &mut source),
        ScaleParam(Some(Point2 { x: 1_157_039, y: 1_034_615 }))
    );
}

#[test]
fn scale_perturbed_moves_by_half_the_temperature_and_keeps_the_floor() {
    let scale = ScaleParam(Some(Point2 { x: ONE, y: ONE }));
    assert_eq!(
        scale.perturbed(2_000_000, -1_000_000, 500_000),
        ScaleParam(Some(Point2 { x: 50_000, y: 1_500_000 }))
    );
    assert_eq!(
        scale.perturbed(200_000, 500_000, -500_000),
        ScaleParam(Some(Point2 { x: 1_050_000, y: 950_000 }))
    );
    assert_eq!(scale.perturbed(0, 999_999, -1_000_000), scale);
    assert_eq!(ScaleParam(None).perturbed(2_000_000, 5, 5), ScaleParam(None));
    let low = ScaleParam(Some(Point2 { x: 50_001, y: 50_000 }));
    assert_eq!(
        low.perturbed(2, -1_000_000, -1_000_000),
        ScaleParam(Some(Point2 { x: 50_000, y: 50_000 }))
    );
}

#[test]
fn scale_neighbor_draws_nothing_when_disabled() {
    let mut source = RandomSource::with_seed(9);
    assert_eq!(ScaleParam(None).neighbor(1_000_000, &mut source), ScaleParam(None));
    assert_eq!(source.state(), 9);
    // The first two shares of the seed 9 are 0.230148 and 0.011522.
    let scale = ScaleParam(Some(Point2 { x: ONE, y: ONE }));
    assert_eq!(
        scale.neighbor(2_000_000, &mut source),
        ScaleParam(Some(Point2 { x: 1_230_148, y: 1_011_522 }))
    );
}

#[test]
fn scale_apply_resizes_the_overlay_to_the_rounded_size() {
    let state = staged(canvas(2, 2), numbered(4, 4));
    let out = ScaleParam(Some(Point2 { x: 1_500_000, y: 500_000 })).apply(state);
    let overlay = out.add_image.unwrap();
    assert_eq!(overlay.width(), 6);
    assert_eq!(overlay.height(), 2);
    let l: Vec<i32> = overlay.pixels().iter().map(|p| p.l).collect();
    // Columns 0, 0, 1, 2, 2, 3 of the rows 0 and 2.
    assert_eq!(l, vec![1, 1, 2, 3, 3, 4, 9, 9, 10, 11, 11, 12]);
    let state = staged(canvas(2, 2), numbered(3, 1));
    let out = ScaleParam(Some(Point2 { x: 500_000, y: 1_499_999 })).apply(state);
    let overlay = out.add_image.unwrap();
    // 3 * 0.5 = 1.5 rounds to 2, 1 * 1.499999 rounds to 1.
    assert_eq!(overlay.width(), 2);
    assert_eq!(overlay.height(), 1);
}

#[test]
fn scale_apply_leaves_the_overlay_when_disabled() {
    let state = staged(canvas(2, 2), numbered(4, 3));
    let out = ScaleParam(None).apply(state);
    let overlay = out.add_image.unwrap();
    assert_eq!(overlay.width(), 4);
    assert_eq!(overlay.height(), 3);
    assert_eq!(overlay.pixels(), numbered(4, 3).pixels());
}

#[test]
fn scale_apply_with_a_scale_that_is_not_positive_empties_the_overlay() {
    let state = staged(canvas(2, 2), numbered(4, 3));
    let out = ScaleParam(Some(Point2 { x: 0, y: ONE })).apply(state);
    let overlay = out.add_image.unwrap();
    assert_eq!(overlay.width(), 0);
    assert_eq!(overlay.height(), 3);
    let state = staged(canvas(2, 2), numbered(4, 3));
    let out = ScaleParam(Some(Point2 { x: ONE, y: -5 })).apply(state);
    let overlay = out.add_image.unwrap();
    assert_eq!(overlay.width(), 4);
    assert_eq!(overlay.height(), 0);
    let state = staged(canvas(2, 2), numbered(1, 1));
    let out = ScaleParam(Some(Point2 { x: 499_999, y: ONE })).apply(state);
    assert_eq!(out.add_image.unwrap().width(), 0);
}

#[test]
fn scale_apply_leaves_the_overlay_when_the_scaled_size_cannot_be_held() {
    let wide: LabaImage = GenericImage::from_raw(Vec::new(), 1_000_001, 0).unwrap();
    let state = staged(canvas(2, 2), wide);
    let out = ScaleParam(Some(Point2 { x: i32::MAX, y: ONE })).apply(state);
    let overlay = out.add_image.unwrap();
    assert_eq!(overlay.width(), 1_000_001);
    assert_eq!(overlay.height(), 0);
}

#[test]
fn hue_drawn_scales_the_draws() {
    assert_eq!(
        HueParam::drawn(-1_000_000, 500_000, 999_999),
        HueParam(Some(Lab { l: -25_000_000, a: 25_000_000, b: 49_999_950 }))
    );
    assert_eq!(HueParam::drawn(0, 0, 0), HueParam(Some(Lab { l: 0, a: 0, b: 0 })));
}

#[test]
fn hue_random_draws_only_when_allowed() {
    let mut source = RandomSource::with_seed(9);
    assert_eq!(HueParam::random(false, &mut source), HueParam(None));
    assert_eq!(source.state(), 9);
    assert_eq!(
        HueParam::random(true, &mut source),
        HueParam(Some(Lab { l: 230_148 * 25, a: 11_522 * 50, b: -307_818 * 50 }))
    );
}

#[test]
fn hue_perturbed_moves_by_twenty_times_the_temperature() {
    let hue = HueParam(Some(Lab { l: 0, a: 0, b: 0 }));
    assert_eq!(
        hue.perturbed(1_000_000, 500_000, -500_000, 0),
        HueParam(Some(Lab { l: 10_000_000, a: -10_000_000, b: 0 }))
    );
    assert_eq!(hue.perturbed(0, 999_999, -1_000_000, 7), hue);
    assert_eq!(HueParam(None).perturbed(1_000_000, 1, 2, 3), HueParam(None));
    let edge = HueParam(Some(Lab { l: i32::MAX, a: i32::MIN, b: 0 }));
    assert_eq!(
        edge.perturbed(u32::MAX, 999_999, -1_000_000, 1),
        HueParam(Some(Lab { l: i32::MAX, a: i32::MIN, b: 85_899 }))
    );
}

#[test]
fn hue_neighbor_draws_nothing_when_disabled() {
    let mut source = RandomSource::with_seed(9);
    assert_eq!(HueParam(None).neighbor(1_000_000, &mut source), HueParam(None));
    assert_eq!(source.state(), 9);
    let hue = HueParam(Some(Lab { l: 1, a: 2, b: 3 }));
    assert_eq!(
        hue.neighbor(50_000, &mut source),
        HueParam(Some(Lab { l: 1 + 230_148, a: 2 + 11_522, b: 3 - 307_818 }))
    );
}

#[test]
fn hue_apply_adds_the_offset_to_every_pixel() {
    let overlay: LabaImage = GenericImage::from_raw(
        vec![
            Laba { l: 10, a: 20, b: 30, alpha: 40 },
            Laba { l: i32::MAX, a: i32::MIN, b: 0, alpha: ONE },
        ],
        2,
        1,
    )
    .unwrap();
    let out = HueParam(Some(Lab { l: 5, a: -5, b: 100 })).apply(staged(canvas(1, 1), overlay));
    assert_eq!(
        out.add_image.unwrap().pixels(),
        &[
            Laba { l: 15, a: 15, b: 130, alpha: 40 },
            Laba { l: i32::MAX, a: i32::MIN, b: 100, alpha: ONE },
        ]
    );
    assert_eq!(lightness(&out.image), vec![0]);
    let out = HueParam(None).apply(staged(canvas(1, 1), numbered(2, 1)));
    assert_eq!(out.add_image.unwrap().pixels(), numbered(2, 1).pixels());
}

#[test]
fn transparency_drawn_is_the_draw() {
    assert_eq!(TransparencyParam::drawn(-1_000_000), TransparencyParam(Some(-ONE)));
    assert_eq!(TransparencyParam::drawn(123), TransparencyParam(Some(123)));
    assert_eq!(TransparencyParam::drawn(5_000_000), TransparencyParam(Some(ONE)));
}

#[test]
fn transparency_random_draws_only_when_allowed() {
    let mut source = RandomSource::with_seed(9);
    assert_eq!(TransparencyParam::random(false, &mut source), TransparencyParam(None));
    assert_eq!(source.state(), 9);
    assert_eq!(TransparencyParam::random(true, &mut source), TransparencyParam(Some(230_148)));
}

#[test]
fn transparency_perturbed_moves_by_a_hundredth_of_the_temperature() {
    let offset = TransparencyParam(Some(0));
    assert_eq!(offset.perturbed(100_000_000, 500_000), TransparencyParam(Some(500_000)));
    assert_eq!(offset.perturbed(1_000_000, -500_000), TransparencyParam(Some(-5_000)));
    assert_eq!(offset.perturbed(99, 999_999), TransparencyParam(Some(0)));
    assert_eq!(TransparencyParam(None).perturbed(100_000_000, 5), TransparencyParam(None));
}

#[test]
fn transparency_perturbed_stays_between_minus_one_and_one() {
    let high = TransparencyParam(Some(900_000));
    assert_eq!(high.perturbed(100_000_000, 999_999), TransparencyParam(Some(ONE)));
    let low = TransparencyParam(Some(-900_000));
    assert_eq!(low.perturbed(100_000_000, -1_000_000), TransparencyParam(Some(-ONE)));
}

#[test]
fn transparency_neighbor_draws_nothing_when_disabled() {
    let mut source = RandomSource::with_seed(9);
    assert_eq!(TransparencyParam(None).neighbor(1_000_000, &mut source), TransparencyParam(None));
    assert_eq!(source.state(), 9);
    assert_eq!(
        TransparencyParam(Some(7)).neighbor(100_000_000, &mut source),
        TransparencyParam(Some(7 + 230_148))
    );
}

#[test]
fn transparency_apply_fades_what_is_not_transparent() {
    let pixel = |alpha: i32| Laba { l: 1, a: 2, b: 3, alpha };
    let overlay: LabaImage = GenericImage::from_raw(
        vec![pixel(60_000), pixel(50_000), pixel(40_000), pixel(500_000), pixel(900_000), pixel(0)],
        3,
        2,
    )
    .unwrap();
    let out = TransparencyParam(Some(300_000)).apply(staged(canvas(1, 1), overlay));
    assert_eq!(
        out.add_image.unwrap().pixels(),
        &[pixel(360_000), pixel(50_000), pixel(40_000), pixel(800_000), pixel(ONE), pixel(0)]
    );
    let overlay: LabaImage =
        GenericImage::from_raw(vec![pixel(60_000), pixel(50_001), pixel(ONE)], 3, 1).unwrap();
    let out = TransparencyParam(Some(-500_000)).apply(staged(canvas(1, 1), overlay));
    assert_eq!(out.add_image.unwrap().pixels(), &[pixel(50_000), pixel(50_000), pixel(500_000)]);
    let out = TransparencyParam(None).apply(staged(canvas(1, 1), numbered(2, 1)));
    assert_eq!(out.add_image.unwrap().pixels(), numbered(2, 1).pixels());
}

#[test]
fn angle_drawn_lies_in_the_full_turn() {
    assert_eq!(AngleParam::drawn(0), AngleParam(Some(0)));
    assert_eq!(AngleParam::drawn(FULL_TURN - 1), AngleParam(Some(6_283_183)));
    assert_eq!(AngleParam::drawn(FULL_TURN), AngleParam(Some(0)));
    assert_eq!(AngleParam::drawn(FULL_TURN + 5), AngleParam(Some(5)));
    assert_eq!(AngleParam::drawn(-1), AngleParam(Some(6_283_183)));
}

#[test]
fn angle_random_draws_only_when_allowed() {
    let mut source = RandomSource::with_seed(4);
    assert_eq!(AngleParam::random(false, &mut source), AngleParam(None));
    assert_eq!(source.state(), 4);
    assert_eq!(AngleParam::random(true, &mut source), AngleParam(Some(774_013)));
    assert_eq!(source.state(), 3257665815644502185);
}

#[test]
fn angle_perturbed_moves_by_a_hundredth_of_the_temperature_and_wraps() {
    let angle = AngleParam(Some(0));
    assert_eq!(angle.perturbed(100_000_000, 500_000), AngleParam(Some(500_000)));
    assert_eq!(angle.perturbed(100_000_000, -1), AngleParam(Some(6_283_183)));
    assert_eq!(angle.perturbed(1_000_000, -500_000), AngleParam(Some(FULL_TURN as i32 - 5_000)));
    let late = AngleParam(Some(6_283_000));
    assert_eq!(late.perturbed(100_000_000, 1_000), AngleParam(Some(816)));
    assert_eq!(AngleParam(None).perturbed(100_000_000, 5), AngleParam(None));
    assert_eq!(angle.perturbed(0, 999_999), angle);
}

#[test]
fn angle_neighbor_draws_nothing_when_disabled() {
    let mut source = RandomSource::with_seed(9);
    assert_eq!(AngleParam(None).neighbor(1_000_000, &mut source), AngleParam(None));
    assert_eq!(source.state(), 9);
    assert_eq!(AngleParam(Some(7)).neighbor(100_000_000, &mut source), AngleParam(Some(7 + 230_148)));
}

#[test]
fn angle_apply_stages_the_angle() {
    let state = ImageState { image: canvas(1, 1), add_image: None, angle: None };
    let out = AngleParam(Some(123)).apply(state);
    assert_eq!(out.angle, Some(123));
    assert!(out.add_image.is_none());
    let out = AngleParam(None).apply(out);
    assert_eq!(out.angle, Some(123));
    let state = ImageState { image: canvas(1, 1), add_image: None, angle: None };
    assert_eq!(AngleParam(None).apply(state).angle, None);
}

#[test]
fn position_drawn_is_the_pair_of_draws() {
    assert_eq!(PositionParam::drawn(0, 999_999), PositionParam(Point2 { x: 0, y: 999_999 }));
}

#[test]
fn position_random_takes_two_draws() {
    let mut source = RandomSource::with_seed(2);
    assert_eq!(
        PositionParam::random(&mut source),
        PositionParam(Point2 { x: 202_567, y: 913_226 })
    );
    assert_eq!(
        PositionParam::random(&mut source),
        PositionParam(Point2 { x: 725_600, y: 395_759 })
    );
}

#[test]
fn position_perturbed_moves_by_the_temperature_without_a_limit() {
    let position = PositionParam(Point2 { x: 500_000, y: 500_000 });
    assert_eq!(
        position.perturbed(1_000_000, 999_999, -1_000_000),
        PositionParam(Point2 { x: 1_499_999, y: -500_000 })
    );
    assert_eq!(
        position.perturbed(100_000, 500_000, -500_000),
        PositionParam(Point2 { x: 550_000, y: 450_000 })
    );
    assert_eq!(position.perturbed(0, 5, 5), position);
}

#[test]
fn position_neighbor_takes_two_draws() {
    let mut source = RandomSource::with_seed(9);
    let position = PositionParam(Point2 { x: 0, y: 0 });
    assert_eq!(
        position.neighbor(1_000_000, &mut source),
        PositionParam(Point2 { x: 230_148, y: 11_522 })
    );
}

#[test]
fn position_apply_places_the_overlay_inside_the_canvas() {
    // Half of ten is five; 0.99 of ten is ten, which is kept at the six
    // that leaves a height of four inside.
    let state = staged(canvas(10, 10), numbered(4, 4));
    let out = PositionParam(Point2 { x: 500_000, y: 990_000 }).apply(state);
    assert!(out.add_image.is_none());
    let expected = canvas(10, 10).overlay(&numbered(4, 4), Point2 { x: 5, y: 6 });
    assert_eq!(lightness(&out.image), lightness(&expected));
    // Positions outside the unit square are brought back.
    let state = staged(canvas(10, 10), numbered(4, 4));
    let out = PositionParam(Point2 { x: -300_000, y: 5_000_000 }).apply(state);
    let expected = canvas(10, 10).overlay(&numbered(4, 4), Point2 { x: 0, y: 6 });
    assert_eq!(lightness(&out.image), lightness(&expected));
    let state = staged(canvas(10, 10), numbered(4, 4));
    let out = PositionParam(Point2 { x: i32::MIN, y: i32::MAX }).apply(state);
    let expected = canvas(10, 10).overlay(&numbered(4, 4), Point2 { x: 0, y: 6 });
    assert_eq!(lightness(&out.image), lightness(&expected));
}

#[test]
fn position_apply_rounds_to_the_nearest_pixel() {
    // 0.25 of ten is 2.5, which rounds to three; 0.24 of ten rounds to two.
    let state = staged(canvas(10, 1), numbered(1, 1));
    let out = PositionParam(Point2 { x: 250_000, y: 0 }).apply(state);
    assert_eq!(lightness(&out.image), vec![0, 0, 0, 1, 0, 0, 0, 0, 0, 0]);
    let state = staged(canvas(10, 1), numbered(1, 1));
    let out = PositionParam(Point2 { x: 240_000, y: 0 }).apply(state);
    assert_eq!(lightness(&out.image), vec![0, 0, 1, 0, 0, 0, 0, 0, 0, 0]);
}

#[test]
fn position_apply_puts_a_larger_overlay_at_the_corner() {
    let state = staged(canvas(2, 2), numbered(4, 4));
    let out = PositionParam(Point2 { x: 900_000, y: 900_000 }).apply(state);
    assert_eq!(lightness(&out.image), vec![1, 2, 5, 6]);
}

#[test]
fn position_apply_turns_the_overlay_by_the_staged_angle() {
    let state = ImageState { image: canvas(4, 4), add_image: Some(numbered(2, 2)), angle: Some(1_570_796) };
    let out = PositionParam(Point2 { x: 250_000, y: 250_000 }).apply(state);
    assert_eq!(out.angle, Some(1_570_796));
    assert_eq!(lightness(&out.image), vec![0, 0, 0, 0, 0, 0, 3, 0, 0, 0, 4, 0, 0, 0, 0, 0]);
    let state = ImageState { image: canvas(4, 4), add_image: Some(numbered(2, 2)), angle: Some(0) };
    let out = PositionParam(Point2 { x: 250_000, y: 250_000 }).apply(state);
    assert_eq!(lightness(&out.image), vec![0, 0, 0, 0, 0, 1, 2, 0, 0, 3, 4, 0, 0, 0, 0, 0]);
}

fn chain(parameters: Vec<Parameter>) -> Node {
    let mut node = Node::nil();
    for parameter in parameters.into_iter().rev() {
        node = Node::cons(parameter, node);
    }
    node
}

#[test]
fn cons_and_nil_build_the_chain() {
    assert_eq!(Node::nil(), Node::Nil);
    let position = Parameter::Position(PositionParam(Point2 { x: 1, y: 2 }));
    let index = Parameter::Index(IndexParam { index: 0 });
    assert_eq!(
        Node::cons(index, Node::cons(position, Node::nil())),
        Node::Cons(index, Box::new(Node::Cons(position, Box::new(Node::Nil))))
    );
}

#[test]
fn empty_chain_changes_nothing() {
    let state = ImageState { image: canvas(2, 1), add_image: None, angle: Some(9) };
    let out = Node::nil().applies(&[], state);
    assert_eq!(lightness(&out.image), vec![0, 0]);
    assert!(out.add_image.is_none());
    assert_eq!(out.angle, Some(9));
}

#[test]
fn chain_applies_its_parameters_from_the_front_to_the_back() {
    let library = vec![numbered(1, 1), numbered(2, 2)];
    let node = chain(vec![
        Parameter::Index(IndexParam { index: 1 }),
        Parameter::Scale(ScaleParam(Some(Point2 { x: 2 * ONE, y: ONE }))),
        Parameter::Hue(HueParam(Some(Lab { l: 10, a: 0, b: 0 }))),
        Parameter::Transparency(TransparencyParam(None)),
        Parameter::Angle(AngleParam(None)),
        Parameter::Position(PositionParam(Point2 { x: 0, y: 500_000 })),
    ]);
    let state = ImageState { image: canvas(5, 4), add_image: None, angle: None };
    let out = node.applies(&library, state);
    assert!(out.add_image.is_none());
    assert_eq!(out.angle, None);
    // The overlay 1 2 / 3 4 is widened to 1 1 2 2 / 3 3 4 4, lifted by ten
    // and laid over at the row 2.
    assert_eq!(
        lightness(&out.image),
        vec![0, 0, 0, 0, 0, 0, 0, 0, 0, 0, 11, 11, 12, 12, 0, 13, 13, 14, 14, 0]
    );
}

#[test]
fn chain_can_lay_over_two_pictures() {
    let library = vec![numbered(1, 1), numbered(2, 1)];
    let node = chain(vec![
        Parameter::Index(IndexParam { index: 1 }),
        Parameter::Position(PositionParam(Point2 { x: 0, y: 0 })),
        Parameter::Index(IndexParam { index: 0 }),
        Parameter::Position(PositionParam(Point2 { x: 999_999, y: 0 })),
    ]);
    let state = ImageState { image: canvas(3, 1), add_image: None, angle: None };
    let out = node.applies(&library, state);
    assert_eq!(lightness(&out.image), vec![1, 2, 1]);
}

#[test]
fn chain_neighbors_at_temperature_zero_is_the_same_chain() {
    let node = chain(vec![
        Parameter::Index(IndexParam { index: 1 }),
        Parameter::Scale(ScaleParam(Some(Point2 { x: 2 * ONE, y: ONE }))),
        Parameter::Hue(HueParam(Some(Lab { l: 10, a: 0, b: 0 }))),
        Parameter::Transparency(TransparencyParam(Some(-7))),
        Parameter::Angle(AngleParam(Some(123))),
        Parameter::Position(PositionParam(Point2 { x: 0, y: 500_000 })),
    ]);
    let mut source = RandomSource::with_seed(11);
    let next = node.neighbors(0, 2, &mut source);
    assert_eq!(next, node);
    assert_ne!(source.state(), 11);
}

#[test]
fn chain_neighbors_perturbs_every_parameter_in_order() {
    // The draws of the seed 9, as shares: 0.230148, 0.011522, -0.307818,
    // -0.151321, 0.041689, -0.359972.
    let node = chain(vec![
        Parameter::Hue(HueParam(Some(Lab { l: 0, a: 0, b: 0 }))),
        Parameter::Transparency(TransparencyParam(None)),
        Parameter::Angle(AngleParam(Some(0))),
        Parameter::Position(PositionParam(Point2 { x: 0, y: 0 })),
    ]);
    let mut source = RandomSource::with_seed(9);
    let next = node.neighbors(1_000_000, 1, &mut source);
    let expected = chain(vec![
        Parameter::Hue(HueParam(Some(Lab { l: 4_602_960, a: 230_440, b: -6_156_360 }))),
        Parameter::Transparency(TransparencyParam(None)),
        Parameter::Angle(AngleParam(Some(FULL_TURN as i32 - 1_514))),
        Parameter::Position(PositionParam(Point2 { x: 41_689, y: -359_972 })),
    ]);
    assert_eq!(next, expected);
    assert_eq!(source.state(), 1099250820157461479);
}

#[test]
fn chain_neighbors_keeps_the_index_inside_the_library() {
    let mut source = RandomSource::with_seed(5);
    let mut node = chain(vec![Parameter::Index(IndexParam { index: 2 })]);
    for _ in 0..200 {
        node = node.neighbors(900_000, 3, &mut source);
        match &node {
            Node::Cons(Parameter::Index(index), rest) => {
                assert!(index.index < 3);
                assert_eq!(**rest, Node::Nil);
            },
            _ => panic!("the chain lost its shape"),
        }
    }
}

//! The parameters of one layer, each of which changes a part of the layer
//! and can be perturbed at random, and the chain that applies them in a
//! fixed order: which picture, its scale, its hue, its transparency, its
//! angle and its position.

use vstd::prelude::*;
use crate::colors::{Lab, Laba};
use crate::fixed::{clamp, div_round, rounded_div, sat32, saturate, FULL_TURN, UNIT};
use crate::lab_image::{
    lemma_from_fn, lemma_raster_equal, overlaid, overlaid_rotated, LabImage, LabaImage, Raster,
};
use crate::ops::{moved_spec, UsefulOps};
use crate::point::Point2;
use crate::random::{drawn_spread, drawn_unit, generated, RandomSource};

verus! {

/// The least scale that a perturbation leaves: a twentieth.
pub const SCALE_FLOOR: i32 = 50_000;

/// The opacity at or below which a pixel counts as transparent and is left
/// alone, and below which no pixel is faded: a twentieth.
pub const ALPHA_FLOOR: i32 = 50_000;

/// The canvas of a layer while its parameters are applied: the picture so
/// far, the overlay that was staged for it and the angle that was staged
/// for the overlay.
pub struct ImageState {
    pub image: LabImage,
    pub add_image: Option<LabaImage>,
    pub angle: Option<i32>,
}

/// The model of an `ImageState`.
pub struct ImageStateModel {
    pub image: Raster<Lab>,
    pub add_image: Option<Raster<Laba>>,
    pub angle: Option<i32>,
}

impl View for ImageState {
    type V = ImageStateModel;

    open spec fn view(&self) -> ImageStateModel {
        ImageStateModel {
            image: self.image@,
            add_image: match self.add_image {
                Some(staged) => Some(staged@),
                None => None,
            },
            angle: self.angle,
        }
    }
}

impl ImageState {
    /// The picture and the staged overlay, if there is one, are well
    /// formed.
    pub open spec fn wf(&self) -> bool {
        &&& self.image.wf()
        &&& match self.add_image {
            Some(staged) => staged.wf(),
            None => true,
        }
    }
}

/// The models of the pictures of a library.
pub open spec fn library_model(images: Seq<LabaImage>) -> Seq<Raster<Laba>> {
    Seq::new(images.len(), |i: int| images[i]@)
}

/// Every picture of the library is well formed.
pub open spec fn library_wf(images: Seq<LabaImage>) -> bool {
    forall|i: int| 0 <= i < images.len() ==> (#[trigger] images[i]).wf()
}

/// Which library picture the layer shows.
#[derive(Debug, Clone, Copy, PartialEq, Eq)]
pub struct IndexParam {
    pub index: usize,
}

impl IndexParam {
    /// An index drawn evenly from the `count` pictures of the library, and
    /// the seed after the draw.
    pub open spec fn random_spec(count: usize, state: u64) -> (IndexParam, u64) {
        let (index, next) = generated(state, count as u64);
        (IndexParam { index: index as usize }, next)
    }

    /// The state with the picture at the index staged as overlay.
    pub open spec fn apply_spec(self, library: Seq<Raster<Laba>>, state: ImageStateModel) -> ImageStateModel {
        ImageStateModel { add_image: Some(library[self.index as int]), ..state }
    }

    /// Whether the draw `chance`, a fraction between zero and one, asks for
    /// a new index at the given temperature: when it is below the
    /// temperature.
    pub open spec fn resamples_spec(chance: int, temperature: u32) -> bool {
        chance < temperature
    }

    /// With a probability equal to the temperature a new index is drawn;
    /// else the index stays. One draw decides, a second one picks.
    pub open spec fn neighbor_spec(self, temperature: u32, count: usize, state: u64) -> (
        IndexParam,
        u64,
    ) {
        let (chance, next) = drawn_unit(state);
        if Self::resamples_spec(chance, temperature) {
            Self::random_spec(count, next)
        } else {
            (self, next)
        }
    }

    /// Whether the draw `chance` asks for a new index at the given
    /// temperature.
    pub fn resamples(chance: i64, temperature: u32) -> (r: bool)
        ensures
            r == Self::resamples_spec(chance as int, temperature),
    {
        chance < temperature as i64
    }

    /// An index drawn evenly from the `count` pictures of the library.
    pub fn random(count: usize, source: &mut RandomSource) -> (r: Self)
        requires
            count > 0,
        ensures
            (r, final(source)@) == Self::random_spec(count, old(source)@),
            r.index < count,
    {
        IndexParam { index: source.index(count) }
    }

    /// Stages a copy of the library picture at the index as overlay.
    pub fn apply(&self, library: &[LabaImage], state: ImageState) -> (r: ImageState)
        requires
            self.index < library@.len(),
            library_wf(library@),
            state.wf(),
        ensures
            r.wf(),
            r@ == self.apply_spec(library_model(library@), state@),
    {
        let staged = library[self.index].clone();
        assert(staged@.pixels =~= library@[self.index as int]@.pixels);
        ImageState { image: state.image, add_image: Some(staged), angle: state.angle }
    }

    /// With a probability equal to the temperature, another index drawn
    /// evenly from the `count` pictures of the library; else the same.
    pub fn neighbor(self, temperature: u32, count: usize, source: &mut RandomSource) -> (r: Self)
        requires
            count > 0,
        ensures
            (r, final(source)@) == self.neighbor_spec(temperature, count, old(source)@),
            self.index < count ==> r.index < count,
    {
        if Self::resamples(source.unit(), temperature) {
            Self::random(count, source)
        } else {
            self
        }
    }
}

/// The size that `size` is scaled to: `size` times `scale`, rounded to the
/// nearest integer; zero for a scale that is not positive.
pub open spec fn scaled_size(size: nat, scale: i32) -> int {
    if scale <= 0 {
        0
    } else {
        div_round(size * scale, UNIT as int)
    }
}

/// Whether a picture of the given dimensions can be held: each dimension
/// fits a coordinate and the number of pixels fits an index.
pub open spec fn holdable(width: int, height: int) -> bool {
    0 <= width <= i32::MAX && 0 <= height <= i32::MAX && width * height <= usize::MAX
}

/// The scale of the overlay along each axis; absent where scaling is
/// switched off.
#[derive(Debug, Clone, Copy, PartialEq, Eq)]
pub struct ScaleParam(pub Option<Point2<i32>>);

impl ScaleParam {
    /// The scale that two draws between zero and one stand for: a half
    /// more than the draw, along each axis.
    pub open spec fn drawn_spec(x: int, y: int) -> ScaleParam {
        ScaleParam(Some(Point2 { x: sat32(x + UNIT / 2) as i32, y: sat32(y + UNIT / 2) as i32 }))
    }

    /// Where scaling is allowed, a scale drawn evenly from a half to one
    /// and a half along each axis; else no scale, and no draw.
    pub open spec fn random_spec(allow: bool, state: u64) -> (ScaleParam, u64) {
        if allow {
            let (x, after_x) = drawn_unit(state);
            let (y, after_y) = drawn_unit(after_x);
            (Self::drawn_spec(x, y), after_y)
        } else {
            (ScaleParam(None), state)
        }
    }

    /// The state with the staged overlay resized to its dimensions times
    /// the scale. The overlay stays as it is where scaling is switched off,
    /// and where the scaled picture could not be held.
    pub open spec fn apply_spec(self, state: ImageStateModel) -> ImageStateModel {
        match (self.0, state.add_image) {
            (Some(scale), Some(staged)) => {
                let width = scaled_size(staged.width, scale.x);
                let height = scaled_size(staged.height, scale.y);
                if holdable(width, height) {
                    ImageStateModel {
                        add_image: Some(staged.resized_nearest(width as nat, height as nat)),
                        ..state
                    }
                } else {
                    state
                }
            },
            _ => state,
        }
    }

    /// The scale with each axis moved by its share, between minus one and
    /// one, of half the temperature, and kept at or above a twentieth.
    /// No scale stays no scale.
    pub open spec fn perturbed_spec(self, temperature: u32, x: int, y: int) -> ScaleParam {
        match self.0 {
            Some(scale) => {
                let moved_x = moved_spec(scale.x, x, temperature as int / 2);
                let moved_y = moved_spec(scale.y, y, temperature as int / 2);
                ScaleParam(
                    Some(
                        Point2 {
                            x: if moved_x < SCALE_FLOOR { SCALE_FLOOR } else { moved_x },
                            y: if moved_y < SCALE_FLOOR { SCALE_FLOOR } else { moved_y },
                        },
                    ),
                )
            },
            None => self,
        }
    }

    /// Each axis moved by a random share of half the temperature, and kept
    /// at or above a twentieth. No scale stays no scale, without a draw.
    pub open spec fn neighbor_spec(self, temperature: u32, state: u64) -> (ScaleParam, u64) {
        match self.0 {
            Some(_) => {
                let (x, after_x) = drawn_spread(state);
                let (y, after_y) = drawn_spread(after_x);
                (self.perturbed_spec(temperature, x, y), after_y)
            },
            None => (self, state),
        }
    }

    /// The scale that two draws between zero and one stand for.
    pub fn drawn(x: i64, y: i64) -> (r: Self)
        ensures
            r == Self::drawn_spec(x as int, y as int),
    {
        ScaleParam(
            Some(
                Point2 {
                    x: saturate(x as i128 + (UNIT / 2) as i128),
                    y: saturate(y as i128 + (UNIT / 2) as i128),
                },
            ),
        )
    }

    /// The scale with each axis moved by its share of half the
    /// temperature.
    pub fn perturbed(self, temperature: u32, x: i64, y: i64) -> (r: Self)
        ensures
            r == self.perturbed_spec(temperature, x as int, y as int),
    {
        match self.0 {
            Some(scale) => {
                let moved_x = UsefulOps::moved(scale.x, x, (temperature / 2) as u64);
                let moved_y = UsefulOps::moved(scale.y, y, (temperature / 2) as u64);
                ScaleParam(
                    Some(
                        Point2 {
                            x: if moved_x < SCALE_FLOOR { SCALE_FLOOR } else { moved_x },
                            y: if moved_y < SCALE_FLOOR { SCALE_FLOOR } else { moved_y },
                        },
                    ),
                )
            },
            None => self,
        }
    }

    /// A random scale where scaling is allowed, none where it is not.
    pub fn random(allow: bool, source: &mut RandomSource) -> (r: Self)
        ensures
            (r, final(source)@) == Self::random_spec(allow, old(source)@),
    {
        if allow {
            let x = source.unit();
            let y = source.unit();
            Self::drawn(x, y)
        } else {
            ScaleParam(None)
        }
    }

    /// Resizes the staged overlay by the scale.
    pub fn apply(&self, state: ImageState) -> (r: ImageState)
        requires
            state.wf(),
            state.add_image is Some,
        ensures
            r.wf(),
            r@ == self.apply_spec(state@),
    {
        let ImageState { image, add_image, angle } = state;
        match (self.0, add_image) {
            (Some(scale), Some(staged)) => {
                let width = scaled(staged.width(), scale.x);
                let height = scaled(staged.height(), scale.y);
                let fits = width <= i32::MAX as i64 && height <= i32::MAX as i64 && match (
                width as usize).checked_mul(height as usize) {
                    Some(_) => true,
                    None => false,
                };
                if fits {
                    proof {
                        if width * height > 0 {
                            assert(staged@.width > 0 && staged@.height > 0) by {
                                assert(scaled_size(0, scale.x) == 0);
                                assert(scaled_size(0, scale.y) == 0);
                                assert(width != 0 && height != 0) by (nonlinear_arith)
                                    requires
                                        width * height > 0,
                                ;
                            }
                            assert(staged@.pixels.len() > 0) by (nonlinear_arith)
                                requires
                                    staged@.pixels.len() == staged@.width * staged@.height,
                                    staged@.width > 0,
                                    staged@.height > 0,
                            ;
                        }
                    }
                    let resized = staged.resized_nearest(
                        Point2 { x: width as usize, y: height as usize },
                    );
                    proof {
                        let expected = staged@.resized_nearest(width as nat, height as nat);
                        lemma_from_fn(
                            width as nat,
                            height as nat,
                            |x: int, y: int|
                                staged@.pixel(
                                    crate::lab_image::source_coordinate(
                                        x,
                                        staged@.width as int,
                                        width as int,
                                    ),
                                    crate::lab_image::source_coordinate(
                                        y,
                                        staged@.height as int,
                                        height as int,
                                    ),
                                ),
                        );
                        lemma_raster_equal(resized@, expected);
                    }
                    ImageState { image, add_image: Some(resized), angle }
                } else {
                    ImageState { image, add_image: Some(staged), angle }
                }
            },
            (_, add_image) => ImageState { image, add_image, angle },
        }
    }

    /// The scale after one random step at the given temperature.
    pub fn neighbor(self, temperature: u32, source: &mut RandomSource) -> (r: Self)
        ensures
            (r, final(source)@) == self.neighbor_spec(temperature, old(source)@),
    {
        match self.0 {
            Some(_) => {
                let x = source.spread();
                let y = source.spread();
                self.perturbed(temperature, x, y)
            },
            None => self,
        }
    }
}

/// A size times a scale.
fn scaled(size: usize, scale: i32) -> (r: i64)
    requires
        size <= i32::MAX,
    ensures
        r == scaled_size(size as nat, scale),
        r >= 0,
{
    if scale <= 0 {
        0
    } else {
        assert(0 <= size * scale <= 0x7fff_ffff * 0x7fff_ffff) by (nonlinear_arith)
            requires
                0 <= size <= 0x7fff_ffff,
                0 < scale <= 0x7fff_ffff,
        ;
        rounded_div(size as i64 * scale as i64, UNIT)
    }
}

/// The pixel with `hue` added to its three colour channels, each kept
/// inside what an `i32` holds.
pub open spec fn shifted(pixel: Laba, hue: Lab) -> Laba {
    Laba {
        l: sat32(pixel.l + hue.l) as i32,
        a: sat32(pixel.a + hue.a) as i32,
        b: sat32(pixel.b + hue.b) as i32,
        alpha: pixel.alpha,
    }
}

/// The pixel with `hue` added to its three colour channels.
fn shift(pixel: Laba, hue: Lab) -> (r: Laba)
    ensures
        r == shifted(pixel, hue),
{
    Laba {
        l: saturate(pixel.l as i128 + hue.l as i128),
        a: saturate(pixel.a as i128 + hue.a as i128),
        b: saturate(pixel.b as i128 + hue.b as i128),
        alpha: pixel.alpha,
    }
}

/// An offset that is added to the colour of every pixel of the overlay;
/// absent where the hue shift is switched off.
#[derive(Debug, Clone, Copy, PartialEq, Eq)]
pub struct HueParam(pub Option<Lab>);

impl HueParam {
    /// Where the hue shift is allowed, an offset drawn evenly from -25 to
    /// 25 for the lightness and from -50 to 50 for each chroma axis; else no
    /// offset, and no draw.
    pub open spec fn random_spec(allow: bool, state: u64) -> (HueParam, u64) {
        if allow {
            let (l, after_l) = drawn_spread(state);
            let (a, after_a) = drawn_spread(after_l);
            let (b, after_b) = drawn_spread(after_a);
            (Self::drawn_spec(l, a, b), after_b)
        } else {
            (HueParam(None), state)
        }
    }

    /// The offset that three draws between minus one and one stand for: 25
    /// times the first for the lightness, 50 times the others for the
    /// chroma axes.
    pub open spec fn drawn_spec(l: int, a: int, b: int) -> HueParam {
        HueParam(
            Some(Lab { l: sat32(l * 25) as i32, a: sat32(a * 50) as i32, b: sat32(b * 50) as i32 }),
        )
    }

    /// The offset with each channel moved by its share, between minus one
    /// and one, of twenty times the temperature. No offset stays no offset.
    pub open spec fn perturbed_spec(self, temperature: u32, l: int, a: int, b: int) -> HueParam {
        match self.0 {
            Some(hue) => HueParam(
                Some(
                    Lab {
                        l: moved_spec(hue.l, l, temperature * 20),
                        a: moved_spec(hue.a, a, temperature * 20),
                        b: moved_spec(hue.b, b, temperature * 20),
                    },
                ),
            ),
            None => self,
        }
    }

    /// The state with the offset added to every pixel of the staged
    /// overlay.
    pub open spec fn apply_spec(self, state: ImageStateModel) -> ImageStateModel {
        match (self.0, state.add_image) {
            (Some(hue), Some(staged)) => ImageStateModel {
                add_image: Some(staged.map_pixels(|pixel: Laba| shifted(pixel, hue))),
                ..state
            },
            _ => state,
        }
    }

    /// Each channel of the offset moved by a random share of twenty times
    /// the temperature.
    pub open spec fn neighbor_spec(self, temperature: u32, state: u64) -> (HueParam, u64) {
        match self.0 {
            Some(_) => {
                let (l, after_l) = drawn_spread(state);
                let (a, after_a) = drawn_spread(after_l);
                let (b, after_b) = drawn_spread(after_a);
                (self.perturbed_spec(temperature, l, a, b), after_b)
            },
            None => (self, state),
        }
    }

    /// The offset that three draws between minus one and one stand for.
    pub fn drawn(l: i64, a: i64, b: i64) -> (r: Self)
        ensures
            r == Self::drawn_spec(l as int, a as int, b as int),
    {
        HueParam(
            Some(
                Lab {
                    l: saturate(l as i128 * 25),
                    a: saturate(a as i128 * 50),
                    b: saturate(b as i128 * 50),
                },
            ),
        )
    }

    /// The offset with each channel moved by its share of twenty times the
    /// temperature.
    pub fn perturbed(self, temperature: u32, l: i64, a: i64, b: i64) -> (r: Self)
        ensures
            r == self.perturbed_spec(temperature, l as int, a as int, b as int),
    {
        match self.0 {
            Some(hue) => {
                let amplitude = temperature as u64 * 20;
                HueParam(
                    Some(
                        Lab {
                            l: UsefulOps::moved(hue.l, l, amplitude),
                            a: UsefulOps::moved(hue.a, a, amplitude),
                            b: UsefulOps::moved(hue.b, b, amplitude),
                        },
                    ),
                )
            },
            None => self,
        }
    }

    /// A random offset where the hue shift is allowed, none where it is
    /// not.
    pub fn random(allow: bool, source: &mut RandomSource) -> (r: Self)
        ensures
            (r, final(source)@) == Self::random_spec(allow, old(source)@),
    {
        if allow {
            let l = source.spread();
            let a = source.spread();
            let b = source.spread();
            Self::drawn(l, a, b)
        } else {
            HueParam(None)
        }
    }

    /// Adds the offset to every pixel of the staged overlay.
    pub fn apply(&self, state: ImageState) -> (r: ImageState)
        requires
            state.wf(),
            state.add_image is Some,
        ensures
            r.wf(),
            r@ == self.apply_spec(state@),
    {
        let ImageState { image, add_image, angle } = state;
        match (self.0, add_image) {
            (Some(hue), Some(staged)) => {
                let ghost before = staged@;
                let mut staged = staged;
                staged.pixels_mut(
                    |pixel: &Laba| -> (r: Laba)
                        ensures
                            r == shifted(*pixel, hue)
                        { shift(*pixel, hue) },
                );
                assert(staged@.pixels =~= before.pixels.map_values(|pixel: Laba| shifted(pixel, hue)));
                ImageState { image, add_image: Some(staged), angle }
            },
            (_, add_image) => ImageState { image, add_image, angle },
        }
    }

    /// The offset after one random step at the given temperature.
    pub fn neighbor(self, temperature: u32, source: &mut RandomSource) -> (r: Self)
        ensures
            (r, final(source)@) == self.neighbor_spec(temperature, old(source)@),
    {
        match self.0 {
            Some(_) => {
                let l = source.spread();
                let a = source.spread();
                let b = source.spread();
                self.perturbed(temperature, l, a, b)
            },
            None => self,
        }
    }
}

/// The pixel with `offset` added to its opacity and the sum kept between a
/// twentieth and one. A pixel whose opacity is a twentieth or less stays as
/// it is.
pub open spec fn faded(pixel: Laba, offset: i32) -> Laba {
    if pixel.alpha > ALPHA_FLOOR {
        Laba { alpha: clamp(pixel.alpha + offset, ALPHA_FLOOR as int, UNIT as int) as i32, ..pixel }
    } else {
        pixel
    }
}

/// The pixel with `offset` added to its opacity.
fn fade(pixel: Laba, offset: i32) -> (r: Laba)
    ensures
        r == faded(pixel, offset),
{
    if pixel.alpha > ALPHA_FLOOR {
        let sum = pixel.alpha as i64 + offset as i64;
        let alpha = if sum < ALPHA_FLOOR as i64 {
            ALPHA_FLOOR
        } else if sum > UNIT {
            UNIT as i32
        } else {
            sum as i32
        };
        Laba { l: pixel.l, a: pixel.a, b: pixel.b, alpha }
    } else {
        pixel
    }
}

/// A fraction kept between minus one and one.
fn limited(value: i64) -> (r: i32)
    ensures
        r == clamp(value as int, -UNIT, UNIT as int),
{
    if value < -UNIT {
        (-UNIT) as i32
    } else if value > UNIT {
        UNIT as i32
    } else {
        value as i32
    }
}

/// An offset that is added to the opacity of every pixel of the overlay;
/// absent where the transparency shift is switched off.
#[derive(Debug, Clone, Copy, PartialEq, Eq)]
pub struct TransparencyParam(pub Option<i32>);

impl TransparencyParam {
    /// Where the transparency shift is allowed, an offset drawn evenly from
    /// minus one to one; else no offset, and no draw.
    pub open spec fn random_spec(allow: bool, state: u64) -> (TransparencyParam, u64) {
        if allow {
            let (offset, next) = drawn_spread(state);
            (Self::drawn_spec(offset), next)
        } else {
            (TransparencyParam(None), state)
        }
    }

    /// The offset that a draw between minus one and one stands for: the
    /// draw itself.
    pub open spec fn drawn_spec(offset: int) -> TransparencyParam {
        TransparencyParam(Some(clamp(offset, -UNIT, UNIT as int) as i32))
    }

    /// The offset moved by its share, between minus one and one, of a
    /// hundredth of the temperature, and kept between minus one and one.
    /// No offset stays no offset.
    pub open spec fn perturbed_spec(self, temperature: u32, spread: int) -> TransparencyParam {
        match self.0 {
            Some(offset) => TransparencyParam(
                Some(
                    clamp(
                        moved_spec(offset, spread, temperature as int / 100) as int,
                        -UNIT,
                        UNIT as int,
                    ) as i32,
                ),
            ),
            None => self,
        }
    }

    /// The state with the offset added to the opacity of every pixel of the
    /// staged overlay that is not transparent.
    pub open spec fn apply_spec(self, state: ImageStateModel) -> ImageStateModel {
        match (self.0, state.add_image) {
            (Some(offset), Some(staged)) => ImageStateModel {
                add_image: Some(staged.map_pixels(|pixel: Laba| faded(pixel, offset))),
                ..state
            },
            _ => state,
        }
    }

    /// The offset moved by a random share of a hundredth of the
    /// temperature, and kept between minus one and one.
    pub open spec fn neighbor_spec(self, temperature: u32, state: u64) -> (TransparencyParam, u64) {
        match self.0 {
            Some(_) => {
                let (spread, next) = drawn_spread(state);
                (self.perturbed_spec(temperature, spread), next)
            },
            None => (self, state),
        }
    }

    /// The offset that a draw between minus one and one stands for.
    pub fn drawn(offset: i64) -> (r: Self)
        ensures
            r == Self::drawn_spec(offset as int),
    {
        TransparencyParam(Some(limited(offset)))
    }

    /// The offset moved by its share of a hundredth of the temperature.
    pub fn perturbed(self, temperature: u32, spread: i64) -> (r: Self)
        ensures
            r == self.perturbed_spec(temperature, spread as int),
    {
        match self.0 {
            Some(offset) => {
                let moved = UsefulOps::moved(offset, spread, (temperature / 100) as u64);
                TransparencyParam(Some(limited(moved as i64)))
            },
            None => self,
        }
    }

    /// A random offset where the transparency shift is allowed, none where
    /// it is not.
    pub fn random(allow: bool, source: &mut RandomSource) -> (r: Self)
        ensures
            (r, final(source)@) == Self::random_spec(allow, old(source)@),
    {
        if allow {
            Self::drawn(source.spread())
        } else {
            TransparencyParam(None)
        }
    }

    /// Adds the offset to the opacity of every pixel of the staged overlay
    /// that is not transparent.
    pub fn apply(&self, state: ImageState) -> (r: ImageState)
        requires
            state.wf(),
            state.add_image is Some,
        ensures
            r.wf(),
            r@ == self.apply_spec(state@),
    {
        let ImageState { image, add_image, angle } = state;
        match (self.0, add_image) {
            (Some(offset), Some(staged)) => {
                let ghost before = staged@;
                let mut staged = staged;
                staged.pixels_mut(
                    |pixel: &Laba| -> (r: Laba)
                        ensures
                            r == faded(*pixel, offset)
                        { fade(*pixel, offset) },
                );
                assert(staged@.pixels =~= before.pixels.map_values(|pixel: Laba| faded(pixel, offset)));
                ImageState { image, add_image: Some(staged), angle }
            },
            (_, add_image) => ImageState { image, add_image, angle },
        }
    }

    /// The offset after one random step at the given temperature.
    pub fn neighbor(self, temperature: u32, source: &mut RandomSource) -> (r: Self)
        ensures
            (r, final(source)@) == self.neighbor_spec(temperature, old(source)@),
    {
        match self.0 {
            Some(_) => {
                let spread = source.spread();
                self.perturbed(temperature, spread)
            },
            None => self,
        }
    }
}

/// The angle by which the overlay is turned, in millionths of a radian;
/// absent where rotation is switched off.
#[derive(Debug, Clone, Copy, PartialEq, Eq)]
pub struct AngleParam(pub Option<i32>);

impl AngleParam {
    /// Where rotation is allowed, an angle drawn evenly from the full turn;
    /// else no angle, and no draw.
    pub open spec fn random_spec(allow: bool, state: u64) -> (AngleParam, u64) {
        if allow {
            let (angle, next) = generated(state, FULL_TURN as u64);
            (Self::drawn_spec(angle as int), next)
        } else {
            (AngleParam(None), state)
        }
    }

    /// The angle that a draw stands for: the draw itself, brought into the
    /// full turn.
    pub open spec fn drawn_spec(angle: int) -> AngleParam {
        AngleParam(Some((angle % (FULL_TURN as int)) as i32))
    }

    /// The angle moved by its share, between minus one and one, of a
    /// hundredth of the temperature and brought back into the full turn.
    /// No angle stays no angle.
    pub open spec fn perturbed_spec(self, temperature: u32, spread: int) -> AngleParam {
        match self.0 {
            Some(angle) => Self::drawn_spec(
                moved_spec(angle, spread, temperature as int / 100) as int,
            ),
            None => self,
        }
    }

    /// The state with the angle staged. Where rotation is switched off the
    /// staged angle stays as it was.
    pub open spec fn apply_spec(self, state: ImageStateModel) -> ImageStateModel {
        match self.0 {
            Some(angle) => ImageStateModel { angle: Some(angle), ..state },
            None => state,
        }
    }

    /// The angle moved by a random share of a hundredth of the temperature
    /// and brought back into the full turn.
    pub open spec fn neighbor_spec(self, temperature: u32, state: u64) -> (AngleParam, u64) {
        match self.0 {
            Some(_) => {
                let (spread, next) = drawn_spread(state);
                (self.perturbed_spec(temperature, spread), next)
            },
            None => (self, state),
        }
    }

    /// The angle that a draw stands for.
    pub fn drawn(angle: i64) -> (r: Self)
        ensures
            r == Self::drawn_spec(angle as int),
    {
        let turned = match angle.checked_rem_euclid(FULL_TURN) {
            Some(t) => t,
            None => 0,
        };
        AngleParam(Some(turned as i32))
    }

    /// The angle moved by its share of a hundredth of the temperature.
    pub fn perturbed(self, temperature: u32, spread: i64) -> (r: Self)
        ensures
            r == self.perturbed_spec(temperature, spread as int),
    {
        match self.0 {
            Some(angle) => Self::drawn(
                UsefulOps::moved(angle, spread, (temperature / 100) as u64) as i64,
            ),
            None => self,
        }
    }

    /// A random angle where rotation is allowed, none where it is not.
    pub fn random(allow: bool, source: &mut RandomSource) -> (r: Self)
        ensures
            (r, final(source)@) == Self::random_spec(allow, old(source)@),
    {
        if allow {
            Self::drawn(source.below(FULL_TURN as u64) as i64)
        } else {
            AngleParam(None)
        }
    }

    /// Stages the angle for the compositing.
    pub fn apply(&self, state: ImageState) -> (r: ImageState)
        requires
            state.wf(),
        ensures
            r.wf(),
            r@ == self.apply_spec(state@),
    {
        match self.0 {
            Some(angle) => ImageState {
                image: state.image,
                add_image: state.add_image,
                angle: Some(angle),
            },
            None => state,
        }
    }

    /// The angle after one random step at the given temperature.
    pub fn neighbor(self, temperature: u32, source: &mut RandomSource) -> (r: Self)
        ensures
            (r, final(source)@) == self.neighbor_spec(temperature, old(source)@),
    {
        match self.0 {
            Some(_) => {
                let spread = source.spread();
                self.perturbed(temperature, spread)
            },
            None => self,
        }
    }
}

/// The pixel offset along one axis that a normalised position stands for:
/// the position times the size of the canvas, rounded to the nearest pixel
/// and kept between zero and what leaves the overlay inside the canvas (zero
/// where the overlay is the larger one).
pub open spec fn placement(normalised: i32, canvas: nat, overlay: nat) -> int {
    let limit = if canvas >= overlay { canvas - overlay } else { 0 };
    clamp(div_round(normalised * canvas, UNIT as int), 0, limit)
}

/// The pixel offset along one axis.
fn placed(normalised: i32, canvas: usize, overlay: usize) -> (r: i32)
    requires
        canvas <= i32::MAX,
        overlay <= i32::MAX,
    ensures
        r == placement(normalised, canvas as nat, overlay as nat),
{
    let limit: i64 = if canvas >= overlay { (canvas - overlay) as i64 } else { 0 };
    assert(-0x8000_0000 * 0x7fff_ffff <= normalised * canvas <= 0x7fff_ffff * 0x7fff_ffff)
        by (nonlinear_arith)
        requires
            -0x8000_0000 <= normalised <= 0x7fff_ffff,
            0 <= canvas <= 0x7fff_ffff,
    ;
    let offset = rounded_div(normalised as i64 * canvas as i64, UNIT);
    if offset < 0 {
        0
    } else if offset > limit {
        limit as i32
    } else {
        offset as i32
    }
}

/// Where on the canvas the overlay is placed, as a fraction of the size of
/// the canvas along each axis.
#[derive(Debug, Clone, Copy, PartialEq, Eq)]
pub struct PositionParam(pub Point2<i32>);

impl PositionParam {
    /// A position drawn evenly from the unit square, and the seed after the
    /// two draws.
    pub open spec fn random_spec(state: u64) -> (PositionParam, u64) {
        let (x, after_x) = drawn_unit(state);
        let (y, after_y) = drawn_unit(after_x);
        (Self::drawn_spec(x, y), after_y)
    }

    /// The position that two draws between zero and one stand for: the
    /// draws themselves.
    pub open spec fn drawn_spec(x: int, y: int) -> PositionParam {
        PositionParam(Point2 { x: sat32(x) as i32, y: sat32(y) as i32 })
    }

    /// The position with each axis moved by its share, between minus one
    /// and one, of the temperature.
    pub open spec fn perturbed_spec(self, temperature: u32, x: int, y: int) -> PositionParam {
        PositionParam(
            Point2 {
                x: moved_spec(self.0.x, x, temperature as int),
                y: moved_spec(self.0.y, y, temperature as int),
            },
        )
    }

    /// The state with the staged overlay laid over the picture at the
    /// position, turned by the staged angle if there is one, and no overlay
    /// staged any more.
    pub open spec fn apply_spec(self, state: ImageStateModel) -> ImageStateModel {
        match state.add_image {
            Some(staged) => {
                let position = Point2 {
                    x: placement(self.0.x, state.image.width, staged.width) as i32,
                    y: placement(self.0.y, state.image.height, staged.height) as i32,
                };
                ImageStateModel {
                    image: match state.angle {
                        Some(angle) => overlaid_rotated(state.image, staged, position, angle),
                        None => overlaid(state.image, staged, position),
                    },
                    add_image: None,
                    angle: state.angle,
                }
            },
            None => state,
        }
    }

    /// Each axis moved by a random share of the temperature. The position
    /// may leave the unit square: it is brought back when it is applied.
    pub open spec fn neighbor_spec(self, temperature: u32, state: u64) -> (PositionParam, u64) {
        let (x, after_x) = drawn_spread(state);
        let (y, after_y) = drawn_spread(after_x);
        (self.perturbed_spec(temperature, x, y), after_y)
    }

    /// The position that two draws between zero and one stand for.
    pub fn drawn(x: i64, y: i64) -> (r: Self)
        ensures
            r == Self::drawn_spec(x as int, y as int),
    {
        PositionParam(Point2 { x: saturate(x as i128), y: saturate(y as i128) })
    }

    /// The position with each axis moved by its share of the temperature.
    pub fn perturbed(self, temperature: u32, x: i64, y: i64) -> (r: Self)
        ensures
            r == self.perturbed_spec(temperature, x as int, y as int),
    {
        PositionParam(
            Point2 {
                x: UsefulOps::moved(self.0.x, x, temperature as u64),
                y: UsefulOps::moved(self.0.y, y, temperature as u64),
            },
        )
    }

    /// A random position.
    pub fn random(source: &mut RandomSource) -> (r: Self)
        ensures
            (r, final(source)@) == Self::random_spec(old(source)@),
    {
        let x = source.unit();
        let y = source.unit();
        Self::drawn(x, y)
    }

    /// Lays the staged overlay over the picture.
    pub fn apply(&self, state: ImageState) -> (r: ImageState)
        requires
            state.wf(),
            state.add_image is Some,
        ensures
            r.wf(),
            r@ == self.apply_spec(state@),
    {
        let ImageState { image, add_image, angle } = state;
        match add_image {
            Some(staged) => {
                let position = Point2 {
                    x: placed(self.0.x, image.width(), staged.width()),
                    y: placed(self.0.y, image.height(), staged.height()),
                };
                let image = match angle {
                    Some(turn) => image.overlay_rotated(&staged, position, turn),
                    None => image.overlay(&staged, position),
                };
                ImageState { image, add_image: None, angle }
            },
            None => ImageState { image, add_image: None, angle },
        }
    }

    /// The position after one random step at the given temperature.
    pub fn neighbor(self, temperature: u32, source: &mut RandomSource) -> (r: Self)
        ensures
            (r, final(source)@) == self.neighbor_spec(temperature, old(source)@),
    {
        let x = source.spread();
        let y = source.spread();
        self.perturbed(temperature, x, y)
    }
}

/// One parameter of a layer, of one of the six kinds.
#[derive(Debug, Clone, Copy, PartialEq, Eq)]
pub enum Parameter {
    Index(IndexParam),
    Scale(ScaleParam),
    Hue(HueParam),
    Transparency(TransparencyParam),
    Angle(AngleParam),
    Position(PositionParam),
}

impl Parameter {
    /// Whether the parameter can be applied with a library of `count`
    /// pictures: an index must name one of them, and what works on the
    /// staged overlay needs one staged.
    pub open spec fn applicable(self, count: nat, staged: bool) -> bool {
        match self {
            Parameter::Index(index) => index.index < count,
            Parameter::Angle(_) => true,
            _ => staged,
        }
    }

    /// Whether an overlay is staged once the parameter was applied.
    pub open spec fn stages(self, staged: bool) -> bool {
        match self {
            Parameter::Index(_) => true,
            Parameter::Position(_) => false,
            _ => staged,
        }
    }

    /// The state after the parameter was applied.
    pub open spec fn apply_spec(self, library: Seq<Raster<Laba>>, state: ImageStateModel) -> ImageStateModel {
        match self {
            Parameter::Index(p) => p.apply_spec(library, state),
            Parameter::Scale(p) => p.apply_spec(state),
            Parameter::Hue(p) => p.apply_spec(state),
            Parameter::Transparency(p) => p.apply_spec(state),
            Parameter::Angle(p) => p.apply_spec(state),
            Parameter::Position(p) => p.apply_spec(state),
        }
    }

    /// The parameter after one random step at the given temperature, with
    /// a library of `count` pictures, and the seed after its draws.
    pub open spec fn neighbor_spec(self, temperature: u32, count: usize, state: u64) -> (
        Parameter,
        u64,
    ) {
        match self {
            Parameter::Index(p) => {
                let (q, next) = p.neighbor_spec(temperature, count, state);
                (Parameter::Index(q), next)
            },
            Parameter::Scale(p) => {
                let (q, next) = p.neighbor_spec(temperature, state);
                (Parameter::Scale(q), next)
            },
            Parameter::Hue(p) => {
                let (q, next) = p.neighbor_spec(temperature, state);
                (Parameter::Hue(q), next)
            },
            Parameter::Transparency(p) => {
                let (q, next) = p.neighbor_spec(temperature, state);
                (Parameter::Transparency(q), next)
            },
            Parameter::Angle(p) => {
                let (q, next) = p.neighbor_spec(temperature, state);
                (Parameter::Angle(q), next)
            },
            Parameter::Position(p) => {
                let (q, next) = p.neighbor_spec(temperature, state);
                (Parameter::Position(q), next)
            },
        }
    }

    /// Applies the parameter to the state.
    pub fn apply(&self, library: &[LabaImage], state: ImageState) -> (r: ImageState)
        requires
            library_wf(library@),
            state.wf(),
            self.applicable(library@.len(), state.add_image is Some),
        ensures
            r.wf(),
            r@ == self.apply_spec(library_model(library@), state@),
            (r.add_image is Some) == self.stages(state.add_image is Some),
    {
        match self {
            Parameter::Index(p) => p.apply(library, state),
            Parameter::Scale(p) => p.apply(state),
            Parameter::Hue(p) => p.apply(state),
            Parameter::Transparency(p) => p.apply(state),
            Parameter::Angle(p) => p.apply(state),
            Parameter::Position(p) => p.apply(state),
        }
    }

    /// The parameter after one random step at the given temperature.
    pub fn neighbor(self, temperature: u32, count: usize, source: &mut RandomSource) -> (r:
        Parameter)
        requires
            count > 0,
        ensures
            (r, final(source)@) == self.neighbor_spec(temperature, count, old(source)@),
            forall|staged: bool|
                self.applicable(count as nat, staged) ==> #[trigger] r.applicable(count as nat, staged),
            forall|staged: bool| #[trigger] r.stages(staged) == self.stages(staged),
    {
        match self {
            Parameter::Index(p) => Parameter::Index(p.neighbor(temperature, count, source)),
            Parameter::Scale(p) => Parameter::Scale(p.neighbor(temperature, source)),
            Parameter::Hue(p) => Parameter::Hue(p.neighbor(temperature, source)),
            Parameter::Transparency(p) => Parameter::Transparency(p.neighbor(temperature, source)),
            Parameter::Angle(p) => Parameter::Angle(p.neighbor(temperature, source)),
            Parameter::Position(p) => Parameter::Position(p.neighbor(temperature, source)),
        }
    }
}

/// A chain of parameters, applied from the front to the back.
#[derive(Debug, PartialEq, Eq)]
pub enum Node {
    /// The end of the chain, which changes nothing.
    Nil,
    /// A parameter and the chain that follows it.
    Cons(Parameter, Box<Node>),
}

impl Node {
    /// Whether the chain can be applied with a library of `count` pictures
    /// to a state in which an overlay is staged or not: each parameter in
    /// its turn finds what it needs.
    pub open spec fn applicable(self, count: nat, staged: bool) -> bool
        decreases self,
    {
        match self {
            Node::Nil => true,
            Node::Cons(parameter, rest) => parameter.applicable(count, staged) && rest.applicable(
                count,
                parameter.stages(staged),
            ),
        }
    }

    /// The state after every parameter of the chain was applied, from the
    /// front to the back.
    pub open spec fn applies_spec(self, library: Seq<Raster<Laba>>, state: ImageStateModel) -> ImageStateModel
        decreases self,
    {
        match self {
            Node::Nil => state,
            Node::Cons(parameter, rest) => rest.applies_spec(
                library,
                parameter.apply_spec(library, state),
            ),
        }
    }

    /// The chain after every parameter took one random step at the given
    /// temperature, from the front to the back, and the seed after all the
    /// draws.
    pub open spec fn neighbors_spec(self, temperature: u32, count: usize, state: u64) -> (Node, u64)
        decreases self,
    {
        match self {
            Node::Nil => (Node::Nil, state),
            Node::Cons(parameter, rest) => {
                let (head, after_head) = parameter.neighbor_spec(temperature, count, state);
                let (tail, after_tail) = rest.neighbors_spec(temperature, count, after_head);
                (Node::Cons(head, Box::new(tail)), after_tail)
            },
        }
    }

    /// The chain that applies `value` and then `other`.
    pub fn cons(value: Parameter, other: Node) -> (r: Node)
        ensures
            r == Node::Cons(value, Box::new(other)),
    {
        Node::Cons(value, Box::new(other))
    }

    /// The empty chain.
    pub fn nil() -> (r: Node)
        ensures
            r == Node::Nil,
    {
        Node::Nil
    }

    /// Applies every parameter of the chain, from the front to the back.
    pub fn applies(&self, library: &[LabaImage], state: ImageState) -> (r: ImageState)
        requires
            library_wf(library@),
            state.wf(),
            self.applicable(library@.len(), state.add_image is Some),
        ensures
            r.wf(),
            r@ == self.applies_spec(library_model(library@), state@),
        decreases self,
    {
        match self {
            Node::Nil => state,
            Node::Cons(parameter, rest) => {
                let next = parameter.apply(library, state);
                rest.applies(library, next)
            },
        }
    }

    /// The chain after every parameter took one random step at the given
    /// temperature, from the front to the back.
    pub fn neighbors(&self, temperature: u32, count: usize, source: &mut RandomSource) -> (r: Node)
        requires
            count > 0,
        ensures
            (r, final(source)@) == self.neighbors_spec(temperature, count, old(source)@),
            forall|staged: bool|
                self.applicable(count as nat, staged) ==> #[trigger] r.applicable(count as nat, staged),
        decreases self,
    {
        match self {
            Node::Nil => Node::Nil,
            Node::Cons(parameter, rest) => {
                let head = parameter.neighbor(temperature, count, source);
                let tail = rest.neighbors(temperature, count, source);
                let r = Node::Cons(head, Box::new(tail));
                proof {
                    assert forall|staged: bool|
                        self.applicable(count as nat, staged) implies #[trigger] r.applicable(
                        count as nat,
                        staged,
                    ) by {
                        assert(head.applicable(count as nat, staged));
                        assert(head.stages(staged) == parameter.stages(staged));
                        assert(tail.applicable(count as nat, parameter.stages(staged)));
                    }
                }
                r
            },
        }
    }
}

/// Applying a chain keeps the dimensions of the picture.
pub proof fn lemma_applies_keeps_size(node: Node, library: Seq<Raster<Laba>>, state: ImageStateModel)
    ensures
        node.applies_spec(library, state).image.width == state.image.width,
        node.applies_spec(library, state).image.height == state.image.height,
    decreases node,
{
    match node {
        Node::Nil => {},
        Node::Cons(parameter, rest) => {
            lemma_applies_keeps_size(*rest, library, parameter.apply_spec(library, state));
        },
    }
}

/// A kind that is switched off changes nothing when it is applied, stays
/// switched off when it is perturbed, and draws nothing.
pub proof fn lemma_disabled_is_identity(state: ImageStateModel, temperature: u32, seed: u64)
    ensures
        ScaleParam(None).apply_spec(state) == state,
        HueParam(None).apply_spec(state) == state,
        TransparencyParam(None).apply_spec(state) == state,
        AngleParam(None).apply_spec(state) == state,
        ScaleParam(None).neighbor_spec(temperature, seed) == (ScaleParam(None), seed),
        HueParam(None).neighbor_spec(temperature, seed) == (HueParam(None), seed),
        TransparencyParam(None).neighbor_spec(temperature, seed) == (TransparencyParam(None), seed),
        AngleParam(None).neighbor_spec(temperature, seed) == (AngleParam(None), seed),
        ScaleParam::random_spec(false, seed) == (ScaleParam(None), seed),
        HueParam::random_spec(false, seed) == (HueParam(None), seed),
        TransparencyParam::random_spec(false, seed) == (TransparencyParam(None), seed),
        AngleParam::random_spec(false, seed) == (AngleParam(None), seed),
{
}

/// Where no angle is staged the overlay is laid over as if the angle zero
/// were staged.
pub proof fn lemma_absent_angle_is_zero(position: PositionParam, state: ImageStateModel)
    requires
        state.image.wf(),
        state.add_image is Some ==> state.add_image.unwrap().wf(),
        state.angle is None,
    ensures
        position.apply_spec(state).image == position.apply_spec(
            ImageStateModel { angle: Some(0), ..state },
        ).image,
{
    if state.add_image is Some {
        let staged = state.add_image.unwrap();
        let place = Point2 {
            x: placement(position.0.x, state.image.width, staged.width) as i32,
            y: placement(position.0.y, state.image.height, staged.height) as i32,
        };
        crate::lab_image::lemma_rotation_zero(state.image, staged, place);
    }
}

} // verus!

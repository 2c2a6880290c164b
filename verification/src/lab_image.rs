//! The pixel grid: a flat row-major buffer addressed by integer coordinates,
//! with nearest-neighbour resizing and the compositing of one grid onto
//! another, straight or rotated.

use vstd::prelude::*;
use crate::colors::{lab_of, laba_of, rgb_of, Lab, Laba, Rgb, Rgba};
use crate::error::PreconditionViolation;
use crate::fixed::{
    ceiling_div, clamp, cosine, cosine_spec, div_ceil, div_round, floored_div, lemma_div_exact,
    lemma_sine_cosine, rounded_div, sat32, saturate, sine, sine_spec, UNIT,
};
use crate::point::Point2;

verus! {

/// The mathematical model of a pixel grid: its dimensions and its pixels,
/// row after row.
pub struct Raster<T> {
    pub width: nat,
    pub height: nat,
    pub pixels: Seq<T>,
}

impl<T> Raster<T> {
    /// The grid holds exactly width times height pixels, and every
    /// coordinate fits in an `i32`.
    pub open spec fn wf(self) -> bool {
        &&& self.width <= i32::MAX
        &&& self.height <= i32::MAX
        &&& self.pixels.len() == self.width * self.height
    }

    /// The position lies inside the grid.
    pub open spec fn contains(self, x: int, y: int) -> bool {
        0 <= x < self.width && 0 <= y < self.height
    }

    /// The pixel in column `x` of row `y`.
    pub open spec fn pixel(self, x: int, y: int) -> T
        recommends
            self.contains(x, y),
    {
        self.pixels[y * self.width + x]
    }

    /// The pixel at a position, absent outside the grid.
    pub open spec fn get(self, x: int, y: int) -> Option<T> {
        if self.contains(x, y) {
            Some(self.pixel(x, y))
        } else {
            None
        }
    }

    /// The grid of the same dimensions whose pixels are those of `self`
    /// taken through `f`.
    pub open spec fn map_pixels<U>(self, f: spec_fn(T) -> U) -> Raster<U> {
        Raster { width: self.width, height: self.height, pixels: self.pixels.map_values(f) }
    }

    /// The grid resized to the given dimensions without smoothing: each
    /// pixel is the pixel of `self` at its position scaled by old size over
    /// new size.
    pub open spec fn resized_nearest(self, width: nat, height: nat) -> Raster<T> {
        Raster::from_fn(
            width,
            height,
            |x: int, y: int|
                self.pixel(
                    source_coordinate(x, self.width as int, width as int),
                    source_coordinate(y, self.height as int, height as int),
                ),
        )
    }

    /// The grid of the given dimensions whose every pixel is `pixel`.
    pub open spec fn filled(pixel: T, width: nat, height: nat) -> Raster<T> {
        Raster { width, height, pixels: Seq::new(width * height, |i: int| pixel) }
    }

    /// The grid of the given dimensions whose pixel at `(x, y)` is `f(x, y)`.
    pub open spec fn from_fn(width: nat, height: nat, f: spec_fn(int, int) -> T) -> Raster<T> {
        Raster {
            width,
            height,
            pixels: Seq::new(width * height, |i: int| f(i % (width as int), i / (width as int))),
        }
    }
}

/// The coordinate in a source of size `old_size` that the coordinate
/// `target` of a destination of size `new_size` is copied from: `target`
/// scaled by `old_size / new_size`, kept inside the source.
pub open spec fn source_coordinate(target: int, old_size: int, new_size: int) -> int
    recommends
        new_size > 0,
{
    clamp(target * old_size / new_size, 0, old_size - 1)
}

/// Whether `position` lies in a grid of the given dimensions.
pub open spec fn inside(position: Point2<i32>, width: int, height: int) -> bool {
    0 <= position.x < width && 0 <= position.y < height
}

/// The point with the given coordinates.
pub open spec fn point(x: int, y: int) -> Point2<i32> {
    Point2 { x: x as i32, y: y as i32 }
}

/// The position of the pixel with the given index in a row-major buffer of
/// the given width.
pub open spec fn position_of(index: int, width: int) -> Point2<i32> {
    Point2 { x: (index % width) as i32, y: (index / width) as i32 }
}

/// Whether `(x, y)` lies in the rectangle from `low` (inclusive) to `high`
/// (exclusive).
pub open spec fn between_spec(low: Point2<i32>, high: Point2<i32>, x: int, y: int) -> bool {
    low.x <= x < high.x && low.y <= y < high.y
}

/// Whether a walk through the rectangle from `low` to `high`, row after row,
/// that stands at column `column` of row `row` has passed the pixel with the
/// given index.
spec fn passed(
    index: int,
    width: int,
    low: Point2<i32>,
    high: Point2<i32>,
    row: int,
    column: int,
) -> bool {
    let x = index % width;
    let y = index / width;
    between_spec(low, high, x, y) && (y < row || (y == row && x < column))
}

/// The index of `(x, y)` splits back into `x` and `y`.
pub proof fn lemma_row_major(x: int, y: int, width: int, height: int)
    requires
        0 <= x < width,
        0 <= y < height,
    ensures
        0 <= y * width + x < width * height,
        (y * width + x) % width == x,
        (y * width + x) / width == y,
{
    lemma_div_exact(y, x, width);
    assert(0 <= y * width + x < width * height) by (nonlinear_arith)
        requires
            0 <= x < width,
            0 <= y < height,
    ;
}

/// An index below width times height splits into a column and a row of the
/// grid.
pub proof fn lemma_index_position(index: int, width: int, height: int)
    by (nonlinear_arith)
    requires
        0 <= index < width * height,
        0 <= width,
        0 <= height,
    ensures
        width > 0,
        0 <= index % width < width,
        0 <= index / width < height,
        index == (index / width) * width + index % width,
{
}

/// Two grids of the same dimensions with the same pixel at every position
/// are the same grid.
pub proof fn lemma_raster_equal<T>(a: Raster<T>, b: Raster<T>)
    requires
        a.wf(),
        b.wf(),
        a.width == b.width,
        a.height == b.height,
        forall|x: int, y: int| a.contains(x, y) ==> #[trigger] a.pixel(x, y) == b.pixel(x, y),
    ensures
        a == b,
{
    assert forall|i: int| 0 <= i < a.pixels.len() implies a.pixels[i] == b.pixels[i] by {
        lemma_index_position(i, a.width as int, a.height as int);
        let x = i % (a.width as int);
        let y = i / (a.width as int);
        assert(a.contains(x, y));
        assert(a.pixel(x, y) == b.pixel(x, y));
    }
    assert(a.pixels =~= b.pixels);
}

/// What `from_fn` builds is well formed and holds `f(x, y)` at `(x, y)`.
pub proof fn lemma_from_fn<T>(width: nat, height: nat, f: spec_fn(int, int) -> T)
    requires
        width <= i32::MAX,
        height <= i32::MAX,
    ensures
        Raster::from_fn(width, height, f).wf(),
        forall|x: int, y: int|
            0 <= x < width && 0 <= y < height ==> #[trigger] Raster::from_fn(width, height, f).pixel(
                x,
                y,
            ) == f(x, y),
{
    let r = Raster::from_fn(width, height, f);
    assert forall|x: int, y: int| 0 <= x < width && 0 <= y < height implies #[trigger] r.pixel(
        x,
        y,
    ) == f(x, y) by {
        lemma_row_major(x, y, width as int, height as int);
    }
}

/// Maps between pixel indices and positions for a grid of given dimensions.
#[derive(Debug, Clone, Copy)]
pub struct Indexer(Point2<usize>);

impl Indexer {
    /// The width of the grid.
    pub closed spec fn spec_width(&self) -> nat {
        self.0.x as nat
    }

    /// The height of the grid.
    pub closed spec fn spec_height(&self) -> nat {
        self.0.y as nat
    }

    /// Every position of the grid has coordinates that fit in an `i32`, and
    /// every pixel an index that fits in a `usize`.
    pub open spec fn wf(&self) -> bool {
        &&& self.spec_width() <= i32::MAX
        &&& self.spec_height() <= i32::MAX
        &&& self.spec_width() * self.spec_height() <= usize::MAX
    }

    /// The indexer of a grid of the given dimensions.
    pub fn new(width: usize, height: usize) -> (r: Self)
        ensures
            r.spec_width() == width,
            r.spec_height() == height,
    {
        Self(Point2 { x: width, y: height })
    }

    /// The position of the pixel with the given index.
    pub fn to_position(&self, index: usize) -> (r: Point2<i32>)
        requires
            self.wf(),
            index < self.spec_width() * self.spec_height(),
        ensures
            r == position_of(index as int, self.spec_width() as int),
            0 <= r.x < self.spec_width(),
            0 <= r.y < self.spec_height(),
            index == r.y * self.spec_width() + r.x,
    {
        proof {
            lemma_index_position(index as int, self.0.x as int, self.0.y as int);
        }
        let x = (index % self.0.x) as i32;
        let y = (index / self.0.x) as i32;
        Point2 { x, y }
    }

    /// The index of the pixel at the given position.
    pub fn to_index(&self, position: Point2<i32>) -> (r: usize)
        requires
            self.wf(),
            0 <= position.x < self.spec_width(),
            0 <= position.y < self.spec_height(),
        ensures
            r == position.y * self.spec_width() + position.x,
            r < self.spec_width() * self.spec_height(),
    {
        proof {
            lemma_row_major(position.x as int, position.y as int, self.0.x as int, self.0.y as int);
            assert(0 <= position.y * self.0.x <= position.y * self.0.x + position.x)
                by (nonlinear_arith)
                requires
                    0 <= position.x,
                    0 <= position.y,
                    0 <= self.0.x,
            ;
        }
        position.x as usize + position.y as usize * self.0.x
    }
}

/// The source coordinate for a destination coordinate.
fn nearest(target: i32, old_size: usize, new_size: usize) -> (r: i32)
    requires
        0 <= target < new_size <= i32::MAX,
        0 < old_size <= i32::MAX,
    ensures
        r == source_coordinate(target as int, old_size as int, new_size as int),
        0 <= r < old_size,
{
    assert(0 <= target * old_size <= 0x7fff_ffff * 0x7fff_ffff) by (nonlinear_arith)
        requires
            0 <= target <= 0x7fff_ffff,
            0 <= old_size <= 0x7fff_ffff,
    ;
    let scaled: u64 = (target as u64) * (old_size as u64) / (new_size as u64);
    if scaled > (old_size - 1) as u64 {
        (old_size - 1) as i32
    } else {
        scaled as i32
    }
}

/// A grid of pixels of any type.
#[derive(Debug)]
pub struct GenericImage<T> {
    data: Vec<T>,
    indexer: Indexer,
}

impl<T> View for GenericImage<T> {
    type V = Raster<T>;

    closed spec fn view(&self) -> Raster<T> {
        Raster {
            width: self.indexer.spec_width(),
            height: self.indexer.spec_height(),
            pixels: self.data@,
        }
    }
}

impl<T> GenericImage<T> {
    /// The buffer holds width times height pixels, every coordinate fits
    /// in an `i32` and every index in a `usize`.
    pub open spec fn wf(&self) -> bool {
        self@.wf() && self@.width * self@.height <= usize::MAX
    }

    /// A well-formed grid has a well-formed indexer.
    proof fn lemma_indexer(&self)
        requires
            self.wf(),
        ensures
            self.indexer.wf(),
            self.indexer.spec_width() == self@.width,
            self.indexer.spec_height() == self@.height,
            self.data@ == self@.pixels,
            self.data@.len() == self@.width * self@.height,
    {
        assert(self.data@.len() == self.data.len());
    }

    /// The grid of the given dimensions over the given pixels, row after
    /// row. Refused where a dimension is above `i32::MAX` or where the
    /// number of pixels is not width times height.
    pub fn from_raw(data: Vec<T>, width: usize, height: usize) -> (r: Result<
        Self,
        PreconditionViolation,
    >)
        ensures
            match r {
                Ok(image) => {
                    &&& image.wf()
                    &&& image@ == (Raster { width: width as nat, height: height as nat, pixels: data@ })
                },
                Err(e) => if width > i32::MAX || height > i32::MAX {
                    e == PreconditionViolation::DimensionTooLarge
                } else {
                    e == PreconditionViolation::LengthMismatch && data@.len() != width * height
                },
            },
    {
        if width > i32::MAX as usize || height > i32::MAX as usize {
            return Err(PreconditionViolation::DimensionTooLarge);
        }
        match width.checked_mul(height) {
            Some(n) => {
                if data.len() == n {
                    let image = Self { data, indexer: Indexer::new(width, height) };
                    assert(image@.pixels == data@);
                    Ok(image)
                } else {
                    Err(PreconditionViolation::LengthMismatch)
                }
            },
            None => {
                assert(data@.len() == data.len());
                Err(PreconditionViolation::LengthMismatch)
            },
        }
    }

    /// The number of columns.
    pub fn width(&self) -> (w: usize)
        ensures
            w == self@.width,
    {
        self.indexer.0.x
    }

    /// The number of rows.
    pub fn height(&self) -> (h: usize)
        ensures
            h == self@.height,
    {
        self.indexer.0.y
    }

    /// The width and the height, as a point.
    pub fn size_point(&self) -> (size: Point2<usize>)
        ensures
            size.x == self@.width,
            size.y == self@.height,
    {
        self.indexer.0
    }

    /// The pixels, row after row.
    pub fn pixels(&self) -> (r: &[T])
        ensures
            r@ == self@.pixels,
    {
        self.data.as_slice()
    }

    /// Whether `position` lies in the rectangle from `low` (inclusive) to
    /// `high` (exclusive).
    pub fn between(low: Point2<i32>, high: Point2<i32>, position: Point2<i32>) -> (r: bool)
        ensures
            r == between_spec(low, high, position.x as int, position.y as int),
    {
        low.x <= position.x && position.x < high.x && low.y <= position.y && position.y < high.y
    }

    /// Whether `position` lies inside the grid.
    pub fn inbounds(&self, position: Point2<i32>) -> (r: bool)
        requires
            self.wf(),
        ensures
            r == self@.contains(position.x as int, position.y as int),
    {
        Self::between(
            Point2::repeat(0),
            Point2 { x: self.indexer.0.x as i32, y: self.indexer.0.y as i32 },
            position,
        )
    }

    /// The pixel at `position`, absent outside the grid.
    pub fn get(&self, position: Point2<i32>) -> (r: Option<&T>)
        requires
            self.wf(),
        ensures
            match r {
                Some(pixel) => Some(*pixel) == self@.get(position.x as int, position.y as int),
                None => self@.get(position.x as int, position.y as int) is None,
            },
    {
        if self.inbounds(position) {
            proof {
                self.lemma_indexer();
            }
            let index = self.indexer.to_index(position);
            Some(&self.data[index])
        } else {
            None
        }
    }

    /// The pixel at `position`, to be written through, absent outside the
    /// grid. Nothing but that pixel changes.
    pub fn get_mut(&mut self, position: Point2<i32>) -> (r: Option<&mut T>)
        requires
            old(self).wf(),
        ensures
            final(self).wf(),
            final(self)@.width == old(self)@.width,
            final(self)@.height == old(self)@.height,
            match r {
                Some(pixel) => {
                    &&& old(self)@.contains(position.x as int, position.y as int)
                    &&& *pixel == old(self)@.pixel(position.x as int, position.y as int)
                    &&& final(self)@.pixels == old(self)@.pixels.update(
                        position.y * old(self)@.width + position.x,
                        *final(pixel),
                    )
                },
                None => {
                    &&& !old(self)@.contains(position.x as int, position.y as int)
                    &&& final(self)@ == old(self)@
                },
            },
    {
        if self.inbounds(position) {
            proof {
                self.lemma_indexer();
            }
            let index = self.indexer.to_index(position);
            Some(&mut self.data[index])
        } else {
            None
        }
    }

    /// The pixel at a position inside the grid.
    pub fn index(&self, index: Point2<i32>) -> (r: &T)
        requires
            self.wf(),
            self@.contains(index.x as int, index.y as int),
        ensures
            *r == self@.pixel(index.x as int, index.y as int),
    {
        proof {
            self.lemma_indexer();
        }
        &self.data[self.indexer.to_index(index)]
    }

    /// The pixel at a position inside the grid, to be written through.
    /// Nothing but that pixel changes.
    pub fn index_mut(&mut self, index: Point2<i32>) -> (r: &mut T)
        requires
            old(self).wf(),
            old(self)@.contains(index.x as int, index.y as int),
        ensures
            final(self).wf(),
            final(self)@.width == old(self)@.width,
            final(self)@.height == old(self)@.height,
            *r == old(self)@.pixel(index.x as int, index.y as int),
            final(self)@.pixels == old(self)@.pixels.update(
                index.y * old(self)@.width + index.x,
                *final(r),
            ),
    {
        proof {
            self.lemma_indexer();
        }
        let at = self.indexer.to_index(index);
        &mut self.data[at]
    }

    /// The grid of the given dimensions whose pixel at each position is what
    /// `f` gives for it. `f` is called once per position, row after row.
    pub fn from_fn<F>(width: usize, height: usize, f: F) -> (r: Self) where
        F: Fn(Point2<i32>) -> T,

        requires
            width <= i32::MAX,
            height <= i32::MAX,
            width * height <= usize::MAX,
            forall|x: int, y: int|
                0 <= x < width && 0 <= y < height ==> #[trigger] f.requires((point(x, y),)),
        ensures
            r.wf(),
            r@.width == width,
            r@.height == height,
            forall|x: int, y: int|
                0 <= x < width && 0 <= y < height ==> f.ensures(
                    (point(x, y),),
                    #[trigger] r@.pixel(x, y),
                ),
    {
        let indexer = Indexer::new(width, height);
        let count = width * height;
        let mut data: Vec<T> = Vec::new();
        let mut index: usize = 0;
        while index < count
            invariant
                indexer.wf(),
                indexer.spec_width() == width,
                indexer.spec_height() == height,
                count == width * height,
                index <= count,
                data@.len() == index,
                forall|x: int, y: int|
                    0 <= x < width && 0 <= y < height ==> #[trigger] f.requires((point(x, y),)),
                forall|i: int|
                    0 <= i < index ==> f.ensures(
                        (position_of(i, width as int),),
                        #[trigger] data@[i],
                    ),
            decreases count - index,
        {
            let position = indexer.to_position(index);
            assert(position == point(position.x as int, position.y as int));
            let pixel = f(position);
            data.push(pixel);
            index = index + 1;
        }
        let r = Self { data, indexer };
        proof {
            assert forall|x: int, y: int| 0 <= x < width && 0 <= y < height implies f.ensures(
                (point(x, y),),
                #[trigger] r@.pixel(x, y),
            ) by {
                lemma_row_major(x, y, width as int, height as int);
            }
        }
        r
    }

    /// The grid of the given dimensions whose every pixel is a clone of
    /// `pixel`.
    pub fn repeat(pixel: T, width: usize, height: usize) -> (r: Self) where T: Clone
        requires
            width <= i32::MAX,
            height <= i32::MAX,
            width * height <= usize::MAX,
        ensures
            r.wf(),
            r@.width == width,
            r@.height == height,
            forall|i: int| 0 <= i < width * height ==> cloned(pixel, #[trigger] r@.pixels[i]),
    {
        Self { data: vec![pixel; width * height], indexer: Indexer::new(width, height) }
    }

    /// The grid of the same dimensions whose pixels are what `f` gives for
    /// the pixels of `self`, row after row.
    pub fn map<F, U>(self, f: F) -> (r: GenericImage<U>) where F: Fn(T) -> U
        requires
            self.wf(),
            forall|i: int| 0 <= i < self@.pixels.len() ==> f.requires((#[trigger] self@.pixels[i],)),
        ensures
            r.wf(),
            r@.width == self@.width,
            r@.height == self@.height,
            forall|i: int|
                0 <= i < self@.pixels.len() ==> f.ensures(
                    (self@.pixels[i],),
                    #[trigger] r@.pixels[i],
                ),
    {
        let ghost source = self@.pixels;
        let indexer = self.indexer;
        let mut data: Vec<U> = Vec::new();
        for pixel in it: self.data.into_iter()
            invariant
                it.seq() == source,
                data@.len() == it.index(),
                forall|i: int| 0 <= i < source.len() ==> f.requires((#[trigger] source[i],)),
                forall|i: int|
                    0 <= i < it.index() ==> f.ensures((source[i],), #[trigger] data@[i]),
        {
            data.push(f(pixel));
        }
        GenericImage { data, indexer }
    }

    /// Every pixel with its position, row after row.
    pub fn pixels_positions(&self) -> (r: Vec<(Point2<i32>, &T)>)
        requires
            self.wf(),
        ensures
            r@.len() == self@.pixels.len(),
            forall|i: int|
                0 <= i < r@.len() ==> (#[trigger] r@[i]).0 == position_of(i, self@.width as int)
                    && *r@[i].1 == self@.pixels[i],
    {
        proof {
            self.lemma_indexer();
        }
        let mut r: Vec<(Point2<i32>, &T)> = Vec::new();
        let mut index: usize = 0;
        while index < self.data.len()
            invariant
                self.wf(),
                self.indexer.wf(),
                self.indexer.spec_width() == self@.width,
                self.indexer.spec_height() == self@.height,
                self.data@ == self@.pixels,
                self.data@.len() == self@.width * self@.height,
                index <= self.data@.len(),
                r@.len() == index,
                forall|i: int|
                    0 <= i < index ==> (#[trigger] r@[i]).0 == position_of(i, self@.width as int)
                        && *r@[i].1 == self@.pixels[i],
            decreases self.data@.len() - index,
        {
            let position = self.indexer.to_position(index);
            r.push((position, &self.data[index]));
            index = index + 1;
        }
        r
    }

    /// A coordinate cut to the range from zero to `size`.
    fn cut(coordinate: i32, size: usize) -> (r: usize)
        ensures
            r == clamp(coordinate as int, 0, size as int),
    {
        if coordinate < 0 {
            0
        } else if coordinate as usize > size {
            size
        } else {
            coordinate as usize
        }
    }

    /// Replaces every pixel inside the rectangle from `low` (inclusive) to
    /// `high` (exclusive) by what `f` gives for its position and its value.
    /// Pixels outside the rectangle stay.
    pub fn pixels_between_mut<F>(&mut self, low: Point2<i32>, high: Point2<i32>, f: F) where
        F: Fn(Point2<i32>, &T) -> T,

        requires
            old(self).wf(),
            forall|x: int, y: int|
                old(self)@.contains(x, y) && between_spec(low, high, x, y) ==> #[trigger] f.requires(
                    (point(x, y), &old(self)@.pixel(x, y)),
                ),
        ensures
            final(self).wf(),
            final(self)@.width == old(self)@.width,
            final(self)@.height == old(self)@.height,
            forall|x: int, y: int|
                old(self)@.contains(x, y) ==> if between_spec(low, high, x, y) {
                    f.ensures(
                        (point(x, y), &old(self)@.pixel(x, y)),
                        #[trigger] final(self)@.pixel(x, y),
                    )
                } else {
                    final(self)@.pixel(x, y) == old(self)@.pixel(x, y)
                },
    {
        proof {
            self.lemma_indexer();
        }
        let ghost before = self@;
        let width = self.indexer.0.x;
        let height = self.indexer.0.y;
        let first_column = Self::cut(low.x, width);
        let last_column = Self::cut(high.x, width);
        let first_row = Self::cut(low.y, height);
        let last_row = Self::cut(high.y, height);
        let mut row = first_row;
        proof {
            assert forall|i: int| 0 <= i < before.pixels.len() implies !passed(
                i,
                width as int,
                low,
                high,
                row as int,
                0,
            ) by {
                lemma_index_position(i, width as int, height as int);
            }
        }
        while row < last_row
            invariant
                before.wf(),
                self.data@.len() <= usize::MAX,
                before.width == width,
                before.height == height,
                self.indexer == old(self).indexer,
                self.data@.len() == before.pixels.len(),
                first_row <= row,
                first_row == clamp(low.y as int, 0, height as int),
                last_row == clamp(high.y as int, 0, height as int),
                first_column == clamp(low.x as int, 0, width as int),
                last_column == clamp(high.x as int, 0, width as int),
                forall|x: int, y: int|
                    before.contains(x, y) && between_spec(low, high, x, y) ==> #[trigger] f.requires(
                        (point(x, y), &before.pixel(x, y)),
                    ),
                forall|i: int|
                    0 <= i < before.pixels.len() ==> if passed(i, width as int, low, high, row as int, 0) {
                        f.ensures(
                            (position_of(i, width as int), &before.pixels[i]),
                            #[trigger] self.data@[i],
                        )
                    } else {
                        self.data@[i] == before.pixels[i]
                    },
            decreases last_row - row,
        {
            proof {
                assert(row * width + width <= height * width) by (nonlinear_arith)
                    requires
                        0 <= row < height,
                        0 <= width,
                ;
            }
            let start = row * width;
            let mut column = first_column;
            proof {
                assert forall|i: int| 0 <= i < before.pixels.len() implies passed(
                    i,
                    width as int,
                    low,
                    high,
                    row as int,
                    0,
                ) == passed(i, width as int, low, high, row as int, column as int) by {
                    lemma_index_position(i, width as int, height as int);
                }
            }
            while column < last_column
                invariant
                    before.wf(),
                    start + width <= self.data@.len() <= usize::MAX,
                    before.width == width,
                    before.height == height,
                    self.indexer == old(self).indexer,
                    self.data@.len() == before.pixels.len(),
                    first_row <= row < last_row,
                    first_column <= column,
                    start == row * width,
                    first_row == clamp(low.y as int, 0, height as int),
                    last_row == clamp(high.y as int, 0, height as int),
                    first_column == clamp(low.x as int, 0, width as int),
                    last_column == clamp(high.x as int, 0, width as int),
                    forall|x: int, y: int|
                        before.contains(x, y) && between_spec(low, high, x, y) ==> #[trigger] f.requires(
                            (point(x, y), &before.pixel(x, y)),
                        ),
                    forall|i: int|
                        0 <= i < before.pixels.len() ==> if passed(
                            i,
                            width as int,
                            low,
                            high,
                            row as int,
                            column as int,
                        ) {
                            f.ensures(
                                (position_of(i, width as int), &before.pixels[i]),
                                #[trigger] self.data@[i],
                            )
                        } else {
                            self.data@[i] == before.pixels[i]
                        },
                decreases last_column - column,
            {
                proof {
                    lemma_row_major(column as int, row as int, width as int, height as int);
                }
                let index = start + column;
                let ghost earlier = self.data@;
                assert(!passed(index as int, width as int, low, high, row as int, column as int));
                assert(before.contains(column as int, row as int));
                assert(between_spec(low, high, column as int, row as int));
                assert(before.pixel(column as int, row as int) == self.data@[index as int]);
                assert(point(column as int, row as int) == position_of(index as int, width as int));
                let pixel = f(Point2 { x: column as i32, y: row as i32 }, &self.data[index]);
                self.data[index] = pixel;
                column = column + 1;
                proof {
                    assert forall|i: int| 0 <= i < before.pixels.len() implies if passed(
                        i,
                        width as int,
                        low,
                        high,
                        row as int,
                        column as int,
                    ) {
                        f.ensures(
                            (position_of(i, width as int), &before.pixels[i]),
                            #[trigger] self.data@[i],
                        )
                    } else {
                        self.data@[i] == before.pixels[i]
                    } by {
                        lemma_index_position(i, width as int, height as int);
                        if i != index {
                            assert(self.data@[i] == earlier[i]);
                            assert(passed(i, width as int, low, high, row as int, column as int)
                                == passed(i, width as int, low, high, row as int, column - 1));
                        }
                    }
                }
            }
            proof {
                assert forall|i: int| 0 <= i < before.pixels.len() implies passed(
                    i,
                    width as int,
                    low,
                    high,
                    row as int,
                    column as int,
                ) == passed(i, width as int, low, high, row + 1, 0) by {
                    lemma_index_position(i, width as int, height as int);
                }
            }
            row = row + 1;
        }
        proof {
            assert forall|x: int, y: int| before.contains(x, y) implies if between_spec(
                low,
                high,
                x,
                y,
            ) {
                f.ensures((point(x, y), &before.pixel(x, y)), #[trigger] self@.pixel(x, y))
            } else {
                self@.pixel(x, y) == before.pixel(x, y)
            } by {
                lemma_row_major(x, y, width as int, height as int);
                let i = y * width + x;
                assert(passed(i, width as int, low, high, row as int, 0) == between_spec(
                    low,
                    high,
                    x,
                    y,
                ));
            }
        }
    }

    /// Replaces every pixel by what `f` gives for its position and its
    /// value.
    pub fn pixels_positions_mut<F>(&mut self, f: F) where F: Fn(Point2<i32>, &T) -> T
        requires
            old(self).wf(),
            forall|x: int, y: int|
                old(self)@.contains(x, y) ==> #[trigger] f.requires(
                    (point(x, y), &old(self)@.pixel(x, y)),
                ),
        ensures
            final(self).wf(),
            final(self)@.width == old(self)@.width,
            final(self)@.height == old(self)@.height,
            forall|x: int, y: int|
                old(self)@.contains(x, y) ==> f.ensures(
                    (point(x, y), &old(self)@.pixel(x, y)),
                    #[trigger] final(self)@.pixel(x, y),
                ),
    {
        let high = Point2 { x: self.indexer.0.x as i32, y: self.indexer.0.y as i32 };
        self.pixels_between_mut(Point2::repeat(0), high, f);
    }

    /// Replaces every pixel by what `f` gives for its value.
    pub fn pixels_mut<F>(&mut self, f: F) where F: Fn(&T) -> T
        requires
            old(self).wf(),
            forall|i: int|
                0 <= i < old(self)@.pixels.len() ==> #[trigger] f.requires(
                    (&old(self)@.pixels[i],),
                ),
        ensures
            final(self).wf(),
            final(self)@.width == old(self)@.width,
            final(self)@.height == old(self)@.height,
            forall|i: int|
                0 <= i < old(self)@.pixels.len() ==> f.ensures(
                    (&old(self)@.pixels[i],),
                    #[trigger] final(self)@.pixels[i],
                ),
    {
        let ghost before = self@;
        let mut index: usize = 0;
        while index < self.data.len()
            invariant
                before.wf(),
                self.indexer == old(self).indexer,
                before == old(self)@,
                self.data@.len() == before.pixels.len(),
                forall|i: int|
                    0 <= i < before.pixels.len() ==> #[trigger] f.requires((&before.pixels[i],)),
                forall|i: int|
                    0 <= i < before.pixels.len() ==> if i < index {
                        f.ensures((&before.pixels[i],), #[trigger] self.data@[i])
                    } else {
                        self.data@[i] == before.pixels[i]
                    },
            decreases self.data@.len() - index,
        {
            let pixel = f(&self.data[index]);
            self.data[index] = pixel;
            index = index + 1;
        }
    }

    /// The grid resized to `size` without smoothing: every pixel of the
    /// result is a clone of the pixel of `self` at its position scaled by
    /// old size over new size.
    pub fn resized_nearest(&self, size: Point2<usize>) -> (r: Self) where T: Clone
        requires
            self.wf(),
            size.x <= i32::MAX,
            size.y <= i32::MAX,
            size.x * size.y <= usize::MAX,
            size.x * size.y > 0 ==> self@.pixels.len() > 0,
        ensures
            r.wf(),
            r@.width == size.x,
            r@.height == size.y,
            forall|x: int, y: int|
                0 <= x < size.x && 0 <= y < size.y ==> cloned(
                    self@.pixel(
                        source_coordinate(x, self@.width as int, size.x as int),
                        source_coordinate(y, self@.height as int, size.y as int),
                    ),
                    #[trigger] r@.pixel(x, y),
                ),
    {
        proof {
            self.lemma_indexer();
            if size.x * size.y > 0 {
                assert(self@.width > 0 && self@.height > 0) by (nonlinear_arith)
                    requires
                        self@.width * self@.height > 0,
                ;
            }
        }
        let this_size = self.size_point();
        Self::from_fn(
            size.x,
            size.y,
            |position: Point2<i32>| -> (pixel: T)
                requires
                    inside(position, size.x as int, size.y as int),
                ensures
                    cloned(
                        self@.pixel(
                            source_coordinate(position.x as int, self@.width as int, size.x as int),
                            source_coordinate(position.y as int, self@.height as int, size.y as int),
                        ),
                        pixel,
                    )
                {
                    assert(size.x * size.y > 0) by (nonlinear_arith)
                        requires
                            size.x > 0,
                            size.y > 0,
                    ;
                    let x = nearest(position.x, this_size.x, size.x);
                    let y = nearest(position.y, this_size.y, size.y);
                    let index = self.indexer.to_index(Point2 { x, y });
                    self.data[index].clone()
                },
        )
    }
}

impl<T: Clone> Clone for GenericImage<T> {
    /// A grid of the same dimensions whose pixels are clones of the pixels
    /// of `self`.
    fn clone(&self) -> (r: Self)
        ensures
            r@.width == self@.width,
            r@.height == self@.height,
            r@.pixels.len() == self@.pixels.len(),
            forall|i: int|
                0 <= i < self@.pixels.len() ==> cloned(self@.pixels[i], #[trigger] r@.pixels[i]),
    {
        Self { data: self.data.clone(), indexer: self.indexer }
    }
}

/// A picture of colours.
pub type LabImage = GenericImage<Lab>;

/// A picture of colours with opacity.
pub type LabaImage = GenericImage<Laba>;

/// What becomes of the pixel `pixel` at `(x, y)` when `top` is laid over with
/// its first pixel at `position`: it is blended with the pixel of `top` that
/// falls on it, and stays where none does.
pub open spec fn laid_over(pixel: Lab, top: Raster<Laba>, position: Point2<i32>, x: int, y: int) -> Lab {
    match top.get(x - position.x, y - position.y) {
        Some(other) => pixel.blend_spec(other),
        None => pixel,
    }
}

/// `base` with `top` laid over, the first pixel of `top` at `position`.
pub open spec fn overlaid(base: Raster<Lab>, top: Raster<Laba>, position: Point2<i32>) -> Raster<Lab> {
    Raster::from_fn(
        base.width,
        base.height,
        |x: int, y: int| laid_over(base.pixel(x, y), top, position, x, y),
    )
}

/// As `laid_over`, for a pixel that has an opacity of its own.
pub open spec fn laid_over_alpha(
    pixel: Laba,
    top: Raster<Laba>,
    position: Point2<i32>,
    x: int,
    y: int,
) -> Laba {
    match top.get(x - position.x, y - position.y) {
        Some(other) => pixel.blend_spec(other),
        None => pixel,
    }
}

/// As `overlaid`, for a base whose pixels have an opacity of their own.
pub open spec fn overlaid_alpha(base: Raster<Laba>, top: Raster<Laba>, position: Point2<i32>) -> Raster<
    Laba,
> {
    Raster::from_fn(
        base.width,
        base.height,
        |x: int, y: int| laid_over_alpha(base.pixel(x, y), top, position, x, y),
    )
}

/// The end of a placement along one axis, kept inside what an `i32` holds.
fn placement_end(start: i32, size: usize) -> (end: i32)
    requires
        size <= i32::MAX,
    ensures
        end == sat32(start + size),
{
    saturate(start as i128 + size as i128)
}

impl LabaImage {
    /// The picture of the Lab colours of a picture in linear RGB with
    /// opacity.
    pub fn from_rgba(image: GenericImage<Rgba>) -> (r: LabaImage)
        requires
            image.wf(),
        ensures
            r.wf(),
            r@ == image@.map_pixels(|pixel: Rgba| laba_of(pixel)),
    {
        let r = image.map(
            |pixel: Rgba| -> (laba: Laba)
                ensures
                    laba == laba_of(pixel)
                { Laba::from_rgba(pixel) },
        );
        assert(r@.pixels =~= image@.pixels.map_values(|pixel: Rgba| laba_of(pixel)));
        r
    }

    /// The picture in linear RGB, without the opacities.
    pub fn to_rgb(self) -> (r: GenericImage<Rgb>)
        requires
            self.wf(),
        ensures
            r.wf(),
            r@ == self@.map_pixels(|pixel: Laba| rgb_of(pixel.no_alpha_spec())),
    {
        let r = self.map(
            |pixel: Laba| -> (rgb: Rgb)
                ensures
                    rgb == rgb_of(pixel.no_alpha_spec())
                { pixel.no_alpha().to_rgb() },
        );
        assert(r@.pixels =~= self@.pixels.map_values(|pixel: Laba| rgb_of(pixel.no_alpha_spec())));
        r
    }

    /// Lays `other` over `self`, the first pixel of `other` at `position`.
    /// Pixels of `other` that fall outside `self` are dropped.
    pub fn overlay(self, other: &LabaImage, position: Point2<i32>) -> (r: LabaImage)
        requires
            self.wf(),
            other.wf(),
        ensures
            r.wf(),
            r@ == overlaid_alpha(self@, other@, position),
    {
        let ghost base = self@;
        let mut image = self;
        let high = Point2 {
            x: placement_end(position.x, other.width()),
            y: placement_end(position.y, other.height()),
        };
        image.pixels_between_mut(
            position,
            high,
            |p: Point2<i32>, pixel: &Laba| -> (r: Laba)
                requires
                    between_spec(position, high, p.x as int, p.y as int),
                ensures
                    r == laid_over_alpha(*pixel, other@, position, p.x as int, p.y as int)
                {
                    match other.get(Point2 { x: p.x - position.x, y: p.y - position.y }) {
                        Some(top) => pixel.blend(*top),
                        None => *pixel,
                    }
                },
        );
        proof {
            let expected = overlaid_alpha(base, other@, position);
            lemma_from_fn(
                base.width,
                base.height,
                |x: int, y: int| laid_over_alpha(base.pixel(x, y), other@, position, x, y),
            );
            assert forall|x: int, y: int| image@.contains(x, y) implies #[trigger] image@.pixel(x, y)
                == expected.pixel(x, y) by {
                assert(point(x, y).x == x && point(x, y).y == y);
            }
            lemma_raster_equal(image@, expected);
        }
        image
    }
}

/// Where in `top` the pixel for the destination `(x, y)` is taken from when
/// `top`, of the given size and placed at `position`, is turned by the
/// rotation `(cos, sin)` about the middle of its placement: the destination
/// is turned back about that middle, by the inverse rotation, rounded to
/// the nearest pixel and taken relative to `position`.
///
/// The middle may lie between pixels, so the sum is made over doubled
/// coordinates.
pub open spec fn rotated_source(
    width: int,
    height: int,
    position: Point2<i32>,
    cos: int,
    sin: int,
    x: int,
    y: int,
) -> (int, int) {
    let middle_x = 2 * position.x + width;
    let middle_y = 2 * position.y + height;
    let dx = 2 * x - middle_x;
    let dy = 2 * y - middle_y;
    (
        div_round(cos * dx + sin * dy + UNIT * middle_x, 2 * UNIT) - position.x,
        div_round(cos * dy - sin * dx + UNIT * middle_y, 2 * UNIT) - position.y,
    )
}

/// The least of four numbers.
pub open spec fn min4(a: int, b: int, c: int, d: int) -> int {
    let ab = if a <= b { a } else { b };
    let cd = if c <= d { c } else { d };
    if ab <= cd { ab } else { cd }
}

/// The greatest of four numbers.
pub open spec fn max4(a: int, b: int, c: int, d: int) -> int {
    let ab = if a >= b { a } else { b };
    let cd = if c >= d { c } else { d };
    if ab >= cd { ab } else { cd }
}

/// The bounding box of the four turned corners of the placement of a grid
/// of the given size at `position`: its low corner, rounded down, and its
/// high corner, rounded up.
pub open spec fn rotated_box(width: int, height: int, position: Point2<i32>, cos: int, sin: int) -> (
    (int, int),
    (int, int),
) {
    let middle_x = 2 * position.x + width;
    let middle_y = 2 * position.y + height;
    let x_ll = cos * (-width) - sin * (-height);
    let x_lh = cos * (-width) - sin * height;
    let x_hl = cos * width - sin * (-height);
    let x_hh = cos * width - sin * height;
    let y_ll = sin * (-width) + cos * (-height);
    let y_lh = sin * (-width) + cos * height;
    let y_hl = sin * width + cos * (-height);
    let y_hh = sin * width + cos * height;
    (
        (
            (min4(x_ll, x_lh, x_hl, x_hh) + UNIT * middle_x) / (2 * UNIT),
            (min4(y_ll, y_lh, y_hl, y_hh) + UNIT * middle_y) / (2 * UNIT),
        ),
        (
            div_ceil(max4(x_ll, x_lh, x_hl, x_hh) + UNIT * middle_x, 2 * UNIT),
            div_ceil(max4(y_ll, y_lh, y_hl, y_hh) + UNIT * middle_y, 2 * UNIT),
        ),
    )
}

/// What becomes of the pixel `pixel` at `(x, y)` when `top`, turned by
/// `angle` about the middle of its placement at `position`, is laid over:
/// inside the bounding box of the turned placement it is blended with the
/// pixel of `top` that its position, turned back, falls on, if there is
/// one.
pub open spec fn laid_over_rotated(
    pixel: Lab,
    top: Raster<Laba>,
    position: Point2<i32>,
    angle: i32,
    x: int,
    y: int,
) -> Lab {
    let cos = cosine_spec(angle as int);
    let sin = sine_spec(angle as int);
    let (low, high) = rotated_box(top.width as int, top.height as int, position, cos, sin);
    let (from_x, from_y) = rotated_source(
        top.width as int,
        top.height as int,
        position,
        cos,
        sin,
        x,
        y,
    );
    if low.0 <= x < high.0 && low.1 <= y < high.1 {
        match top.get(from_x, from_y) {
            Some(other) => pixel.blend_spec(other),
            None => pixel,
        }
    } else {
        pixel
    }
}

/// `base` with `top` laid over, turned by `angle` (millionths of a radian)
/// about the middle of its placement at `position`.
pub open spec fn overlaid_rotated(
    base: Raster<Lab>,
    top: Raster<Laba>,
    position: Point2<i32>,
    angle: i32,
) -> Raster<Lab> {
    Raster::from_fn(
        base.width,
        base.height,
        |x: int, y: int| laid_over_rotated(base.pixel(x, y), top, position, angle, x, y),
    )
}

/// The least of four numbers.
fn least(a: i64, b: i64, c: i64, d: i64) -> (r: i64)
    ensures
        r == min4(a as int, b as int, c as int, d as int),
{
    let ab = if a <= b { a } else { b };
    let cd = if c <= d { c } else { d };
    if ab <= cd { ab } else { cd }
}

/// The greatest of four numbers.
fn greatest(a: i64, b: i64, c: i64, d: i64) -> (r: i64)
    ensures
        r == max4(a as int, b as int, c as int, d as int),
{
    let ab = if a >= b { a } else { b };
    let cd = if c >= d { c } else { d };
    if ab >= cd { ab } else { cd }
}

/// The product of a cosine or sine with a doubled coordinate.
fn scaled(factor: i64, value: i64) -> (r: i64)
    requires
        -UNIT <= factor <= UNIT,
        -0x8_0000_0000 <= value <= 0x8_0000_0000,
    ensures
        r == factor * value,
        -0x8_0000_0000 * UNIT <= r <= 0x8_0000_0000 * UNIT,
{
    assert(-0x8_0000_0000 * 1_000_000 <= factor * value <= 0x8_0000_0000 * 1_000_000)
        by (nonlinear_arith)
        requires
            -1_000_000 <= factor <= 1_000_000,
            -0x8_0000_0000 <= value <= 0x8_0000_0000,
    ;
    factor * value
}

impl LabImage {
    /// The picture of the Lab colours of a picture in linear RGB.
    pub fn from_rgb(image: GenericImage<Rgb>) -> (r: LabImage)
        requires
            image.wf(),
        ensures
            r.wf(),
            r@ == image@.map_pixels(|pixel: Rgb| lab_of(pixel)),
    {
        let r = image.map(
            |pixel: Rgb| -> (lab: Lab)
                ensures
                    lab == lab_of(pixel)
                { Lab::from_rgb(pixel) },
        );
        assert(r@.pixels =~= image@.pixels.map_values(|pixel: Rgb| lab_of(pixel)));
        r
    }

    /// The picture without the opacities.
    pub fn from_laba(image: LabaImage) -> (r: LabImage)
        requires
            image.wf(),
        ensures
            r.wf(),
            r@ == image@.map_pixels(|pixel: Laba| pixel.no_alpha_spec()),
    {
        let r = image.map(
            |pixel: Laba| -> (lab: Lab)
                ensures
                    lab == pixel.no_alpha_spec()
                { pixel.no_alpha() },
        );
        assert(r@.pixels =~= image@.pixels.map_values(|pixel: Laba| pixel.no_alpha_spec()));
        r
    }

    /// The picture in linear RGB.
    pub fn to_rgb(self) -> (r: GenericImage<Rgb>)
        requires
            self.wf(),
        ensures
            r.wf(),
            r@ == self@.map_pixels(|pixel: Lab| rgb_of(pixel)),
    {
        let r = self.map(
            |pixel: Lab| -> (rgb: Rgb)
                ensures
                    rgb == rgb_of(pixel)
                { pixel.to_rgb() },
        );
        assert(r@.pixels =~= self@.pixels.map_values(|pixel: Lab| rgb_of(pixel)));
        r
    }

    /// Lays `other` over `self`, the first pixel of `other` at `position`.
    /// Pixels of `other` that fall outside `self` are dropped.
    pub fn overlay(self, other: &LabaImage, position: Point2<i32>) -> (r: LabImage)
        requires
            self.wf(),
            other.wf(),
        ensures
            r.wf(),
            r@ == overlaid(self@, other@, position),
    {
        let ghost base = self@;
        let mut image = self;
        let high = Point2 {
            x: placement_end(position.x, other.width()),
            y: placement_end(position.y, other.height()),
        };
        image.pixels_between_mut(
            position,
            high,
            |p: Point2<i32>, pixel: &Lab| -> (r: Lab)
                requires
                    between_spec(position, high, p.x as int, p.y as int),
                ensures
                    r == laid_over(*pixel, other@, position, p.x as int, p.y as int)
                {
                    match other.get(Point2 { x: p.x - position.x, y: p.y - position.y }) {
                        Some(top) => pixel.blend(*top),
                        None => *pixel,
                    }
                },
        );
        proof {
            let expected = overlaid(base, other@, position);
            lemma_from_fn(
                base.width,
                base.height,
                |x: int, y: int| laid_over(base.pixel(x, y), other@, position, x, y),
            );
            assert forall|x: int, y: int| image@.contains(x, y) implies #[trigger] image@.pixel(x, y)
                == expected.pixel(x, y) by {
                assert(point(x, y).x == x && point(x, y).y == y);
            }
            lemma_raster_equal(image@, expected);
        }
        image
    }

    /// Lays `other` over `self`, turned by `angle` (millionths of a radian)
    /// about the middle of its placement at `position`. A positive angle
    /// turns from the x axis towards the y axis. Only the pixels of `self`
    /// inside the bounding box of the four turned corners of the placement
    /// are visited; each takes one sample from `other`, at its own position
    /// turned back about the same middle and rounded to the nearest pixel.
    pub fn overlay_rotated(self, other: &LabaImage, position: Point2<i32>, angle: i32) -> (r:
        LabImage)
        requires
            self.wf(),
            other.wf(),
        ensures
            r.wf(),
            r@ == overlaid_rotated(self@, other@, position, angle),
    {
        let ghost base = self@;
        let mut image = self;
        let cos = cosine(angle);
        let sin = sine(angle as i64);
        let width = other.width() as i64;
        let height = other.height() as i64;
        let middle_x = 2 * (position.x as i64) + width;
        let middle_y = 2 * (position.y as i64) + height;
        let x_ll = scaled(cos, -width) - scaled(sin, -height);
        let x_lh = scaled(cos, -width) - scaled(sin, height);
        let x_hl = scaled(cos, width) - scaled(sin, -height);
        let x_hh = scaled(cos, width) - scaled(sin, height);
        let y_ll = scaled(sin, -width) + scaled(cos, -height);
        let y_lh = scaled(sin, -width) + scaled(cos, height);
        let y_hl = scaled(sin, width) + scaled(cos, -height);
        let y_hh = scaled(sin, width) + scaled(cos, height);
        let low_x = floored_div(least(x_ll, x_lh, x_hl, x_hh) + UNIT * middle_x, 2 * UNIT);
        let low_y = floored_div(least(y_ll, y_lh, y_hl, y_hh) + UNIT * middle_y, 2 * UNIT);
        let high_x = ceiling_div(greatest(x_ll, x_lh, x_hl, x_hh) + UNIT * middle_x, 2 * UNIT);
        let high_y = ceiling_div(greatest(y_ll, y_lh, y_hl, y_hh) + UNIT * middle_y, 2 * UNIT);
        let low = Point2 { x: saturate(low_x as i128), y: saturate(low_y as i128) };
        let high = Point2 { x: saturate(high_x as i128), y: saturate(high_y as i128) };
        image.pixels_between_mut(
            low,
            high,
            |p: Point2<i32>, pixel: &Lab| -> (r: Lab)
                requires
                    inside(p, base.width as int, base.height as int),
                    between_spec(low, high, p.x as int, p.y as int),
                ensures
                    r == laid_over_rotated(*pixel, other@, position, angle, p.x as int, p.y as int)
                {
                    let dx = 2 * (p.x as i64) - middle_x;
                    let dy = 2 * (p.y as i64) - middle_y;
                    let turned_x = scaled(cos, dx) + scaled(sin, dy) + UNIT * middle_x;
                    let turned_y = scaled(cos, dy) - scaled(sin, dx) + UNIT * middle_y;
                    let from_x = rounded_div(turned_x, 2 * UNIT) - position.x as i64;
                    let from_y = rounded_div(turned_y, 2 * UNIT) - position.y as i64;
                    if 0 <= from_x && from_x < width && 0 <= from_y && from_y < height {
                        match other.get(Point2 { x: from_x as i32, y: from_y as i32 }) {
                            Some(top) => pixel.blend(*top),
                            None => *pixel,
                        }
                    } else {
                        *pixel
                    }
                },
        );
        proof {
            let expected = overlaid_rotated(base, other@, position, angle);
            lemma_from_fn(
                base.width,
                base.height,
                |x: int, y: int| laid_over_rotated(base.pixel(x, y), other@, position, angle, x, y),
            );
            assert forall|x: int, y: int| image@.contains(x, y) implies #[trigger] image@.pixel(x, y)
                == expected.pixel(x, y) by {
                assert(point(x, y).x == x && point(x, y).y == y);
            }
            lemma_raster_equal(image@, expected);
        }
        image
    }
}

/// Laying a grid over, straight or turned, keeps the dimensions of the
/// base and changes no pixel but those that a pixel of the overlay falls
/// on, wherever the overlay is placed.
pub proof fn lemma_overlay_keeps_rest(
    base: Raster<Lab>,
    top: Raster<Laba>,
    position: Point2<i32>,
    angle: i32,
    x: int,
    y: int,
)
    requires
        base.wf(),
        base.contains(x, y),
    ensures
        overlaid(base, top, position).wf(),
        overlaid(base, top, position).width == base.width,
        overlaid(base, top, position).height == base.height,
        overlaid_rotated(base, top, position, angle).wf(),
        overlaid_rotated(base, top, position, angle).width == base.width,
        overlaid_rotated(base, top, position, angle).height == base.height,
        !top.contains(x - position.x, y - position.y) ==> overlaid(base, top, position).pixel(x, y)
            == base.pixel(x, y),
        ({
            let cos = cosine_spec(angle as int);
            let sin = sine_spec(angle as int);
            let from = rotated_source(top.width as int, top.height as int, position, cos, sin, x, y);
            !top.contains(from.0, from.1) ==> overlaid_rotated(base, top, position, angle).pixel(x, y)
                == base.pixel(x, y)
        }),
{
    lemma_from_fn(
        base.width,
        base.height,
        |x: int, y: int| laid_over(base.pixel(x, y), top, position, x, y),
    );
    lemma_from_fn(
        base.width,
        base.height,
        |x: int, y: int| laid_over_rotated(base.pixel(x, y), top, position, angle, x, y),
    );
}

/// Turned by the angle zero, an overlay is laid over as it is laid over
/// straight.
pub proof fn lemma_rotation_zero(base: Raster<Lab>, top: Raster<Laba>, position: Point2<i32>)
    requires
        base.wf(),
        top.wf(),
    ensures
        overlaid_rotated(base, top, position, 0) == overlaid(base, top, position),
{
    let straight = overlaid(base, top, position);
    let turned = overlaid_rotated(base, top, position, 0);
    lemma_from_fn(
        base.width,
        base.height,
        |x: int, y: int| laid_over(base.pixel(x, y), top, position, x, y),
    );
    lemma_from_fn(
        base.width,
        base.height,
        |x: int, y: int| laid_over_rotated(base.pixel(x, y), top, position, 0, x, y),
    );
    lemma_sine_cosine(0);
    let width = top.width as int;
    let height = top.height as int;
    let (low, high) = rotated_box(width, height, position, UNIT as int, 0);
    assert(low.0 == position.x && low.1 == position.y) by {
        lemma_div_exact(position.x as int, 0, 2 * UNIT);
        lemma_div_exact(position.y as int, 0, 2 * UNIT);
    }
    assert(high.0 == position.x + width && high.1 == position.y + height) by {
        lemma_div_exact(position.x + width, 2 * UNIT - 1, 2 * UNIT);
        lemma_div_exact(position.y + height, 2 * UNIT - 1, 2 * UNIT);
    }
    assert forall|x: int, y: int| turned.contains(x, y) implies #[trigger] turned.pixel(x, y)
        == straight.pixel(x, y) by {
        let from = rotated_source(width, height, position, UNIT as int, 0, x, y);
        assert(from.0 == x - position.x && from.1 == y - position.y) by {
            lemma_div_exact(x, UNIT as int, 2 * UNIT);
            lemma_div_exact(y, UNIT as int, 2 * UNIT);
        }
    }
    lemma_raster_equal(turned, straight);
}

} // verus!

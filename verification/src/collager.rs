//! The driver: a flat background is annealed against the target, then layer
//! after layer is annealed from several random starts and the best one is
//! composited onto the picture.

use vstd::prelude::*;
use crate::annealer::{annealed, started, Annealable, Annealer, Scored, StateEnergy};
use crate::colors::{Lab, Laba};
use crate::error::PreconditionViolation;
use crate::lab_image::{LabImage, LabaImage, Raster};
use crate::ops::{changed_spec, difference_spec, UsefulOps};
use crate::params::{
    library_model, library_wf, AngleParam, HueParam, ImageState, ImageStateModel, IndexParam, Node,
    Parameter, PositionParam, ScaleParam, TransparencyParam,
};
use crate::random::{drawn_color, RandomSource};

verus! {

/// The temperature that the annealing of the background starts from:
/// thirty.
pub const BACKGROUND_TEMPERATURE: u32 = 30_000_000;

/// A candidate for the background: one colour for the whole picture.
#[derive(Debug, Clone, Copy)]
pub struct BackgroundAnnealable<'a> {
    target: &'a LabImage,
    color: Lab,
}

/// The model of a background candidate: the target and the colour.
pub struct BackgroundModel {
    pub target: Raster<Lab>,
    pub color: Lab,
}

impl BackgroundModel {
    /// The picture of the size of the target whose every pixel has the
    /// colour.
    pub open spec fn applied(self) -> Raster<Lab> {
        Raster::filled(self.color, self.target.width, self.target.height)
    }
}

impl<'a> View for BackgroundAnnealable<'a> {
    type V = BackgroundModel;

    closed spec fn view(&self) -> BackgroundModel {
        BackgroundModel { target: self.target@, color: self.color }
    }
}

impl<'a> BackgroundAnnealable<'a> {
    /// A candidate of a colour drawn at random.
    pub fn new(target: &'a LabImage, source: &mut RandomSource) -> (r: Self)
        requires
            target.wf(),
        ensures
            r.wf(),
            r@.target == target@,
            (r@.color, final(source)@) == drawn_color(old(source)@),
    {
        Self { target, color: Lab::random(source) }
    }

    /// The colour of the candidate.
    pub fn color(&self) -> (c: Lab)
        ensures
            c == self@.color,
    {
        self.color
    }

    /// The picture of the size of the target whose every pixel has the
    /// colour of the candidate.
    pub fn applied(&self) -> (r: LabImage)
        requires
            self.wf(),
        ensures
            r.wf(),
            r@ == self@.applied(),
    {
        let r = LabImage::repeat(self.color, self.target.width(), self.target.height());
        assert(r@.pixels =~= self@.applied().pixels);
        r
    }
}

impl<'a> Annealable for BackgroundAnnealable<'a> {
    type Model = BackgroundModel;

    open spec fn model(&self) -> BackgroundModel {
        self@
    }

    closed spec fn wf(&self) -> bool {
        self.target.wf()
    }

    /// The sum over the pixels of the target of their distance to the
    /// colour.
    open spec fn energy_spec(model: BackgroundModel) -> u128 {
        difference_spec(model.target.pixels, model.applied().pixels) as u128
    }

    /// Each channel of the colour moved by a random share of the
    /// temperature.
    open spec fn neighbor_spec(model: BackgroundModel, temperature: u32, state: u64) -> (
        BackgroundModel,
        u64,
    ) {
        let (l, after_l) = changed_spec(model.color.l, temperature as int, state);
        let (a, after_a) = changed_spec(model.color.a, temperature as int, after_l);
        let (b, after_b) = changed_spec(model.color.b, temperature as int, after_a);
        (BackgroundModel { target: model.target, color: Lab { l, a, b } }, after_b)
    }

    fn random_neighbor(&self, temperature: u32, source: &mut RandomSource) -> (r: Self) {
        let l = UsefulOps::changed(self.color.l, temperature as u64, source);
        let a = UsefulOps::changed(self.color.a, temperature as u64, source);
        let b = UsefulOps::changed(self.color.b, temperature as u64, source);
        Self { target: self.target, color: Lab { l, a, b } }
    }

    fn energy(&self) -> (e: u128) {
        let pixels = self.applied();
        UsefulOps::image_difference(self.target.pixels(), pixels.pixels())
    }
}

/// A candidate for a layer: a chain of parameters, to be applied to the
/// picture so far with the pictures of the library.
#[derive(Debug)]
pub struct ImageAnnealable<'a> {
    target: &'a LabImage,
    current: &'a LabImage,
    images: &'a [LabaImage],
    node: Node,
}

/// The model of a layer candidate: the target, the picture so far, the
/// library and the chain.
pub struct CandidateModel {
    pub target: Raster<Lab>,
    pub current: Raster<Lab>,
    pub library: Seq<Raster<Laba>>,
    pub node: Node,
}

impl CandidateModel {
    /// The picture so far with the layer composited onto it.
    pub open spec fn applied(self) -> Raster<Lab> {
        self.node.applies_spec(
            self.library,
            ImageStateModel { image: self.current, add_image: None, angle: None },
        ).image
    }
}

impl<'a> View for ImageAnnealable<'a> {
    type V = CandidateModel;

    closed spec fn view(&self) -> CandidateModel {
        CandidateModel {
            target: self.target@,
            current: self.current@,
            library: library_model(self.images@),
            node: self.node,
        }
    }
}

impl<'a> ImageAnnealable<'a> {
    /// The candidate that applies `node` to `current` with the pictures
    /// `images`, to be held against `target`.
    pub fn new(
        target: &'a LabImage,
        current: &'a LabImage,
        images: &'a [LabaImage],
        node: Node,
    ) -> (r: Self)
        requires
            target.wf(),
            current.wf(),
            library_wf(images@),
            images@.len() > 0,
            node.applicable(images@.len(), false),
        ensures
            r.wf(),
            r@ == (CandidateModel {
                target: target@,
                current: current@,
                library: library_model(images@),
                node,
            }),
    {
        Self { target, current, images, node }
    }

    /// The picture so far with the layer composited onto it.
    pub fn applied(&self) -> (r: LabImage)
        requires
            self.wf(),
        ensures
            r.wf(),
            r@ == self@.applied(),
    {
        let image = self.current.clone();
        assert(image@.pixels =~= self.current@.pixels);
        let state = ImageState { image, add_image: None, angle: None };
        self.node.applies(self.images, state).image
    }
}

impl<'a> Annealable for ImageAnnealable<'a> {
    type Model = CandidateModel;

    open spec fn model(&self) -> CandidateModel {
        self@
    }

    closed spec fn wf(&self) -> bool {
        &&& self.target.wf()
        &&& self.current.wf()
        &&& library_wf(self.images@)
        &&& self.images@.len() > 0
        &&& self.node.applicable(self.images@.len(), false)
    }

    /// The sum over the pixels of the target of their distance to the
    /// pixel of the picture with the layer composited onto it.
    open spec fn energy_spec(model: CandidateModel) -> u128 {
        difference_spec(model.target.pixels, model.applied().pixels) as u128
    }

    /// Every parameter of the chain takes one random step.
    open spec fn neighbor_spec(model: CandidateModel, temperature: u32, state: u64) -> (
        CandidateModel,
        u64,
    ) {
        let (node, next) = model.node.neighbors_spec(temperature, model.library.len() as usize, state);
        (
            CandidateModel {
                target: model.target,
                current: model.current,
                library: model.library,
                node,
            },
            next,
        )
    }

    fn random_neighbor(&self, temperature: u32, source: &mut RandomSource) -> (r: Self) {
        let node = self.node.neighbors(temperature, self.images.len(), source);
        Self { target: self.target, current: self.current, images: self.images, node }
    }

    fn energy(&self) -> (e: u128) {
        let pixels = self.applied();
        UsefulOps::image_difference(self.target.pixels(), pixels.pixels())
    }
}

/// What a run is asked to do.
#[derive(Debug, Clone, Copy)]
pub struct CollagerConfig {
    /// The steps of each annealing run; at least one.
    pub steps: u32,
    /// The number of layers.
    pub amount: u32,
    /// The random starts that each layer is annealed from; at least one.
    pub starts: u32,
    /// The temperature that the annealing of a layer starts from.
    pub starting_temperature: u32,
    pub allow_scaling: bool,
    pub allow_rotation: bool,
    pub allow_hue: bool,
    pub allow_transparency: bool,
    /// Whether the caller wants the picture after each layer.
    pub debug: bool,
}

/// The chain of a fresh layer: a random index, scale, hue, transparency,
/// angle and position, in this order, each kind switched on or off as the
/// configuration says; and the seed after the draws.
pub open spec fn random_chain(config: CollagerConfig, count: usize, state: u64) -> (Node, u64) {
    let (index, after_index) = IndexParam::random_spec(count, state);
    let (scale, after_scale) = ScaleParam::random_spec(config.allow_scaling, after_index);
    let (hue, after_hue) = HueParam::random_spec(config.allow_hue, after_scale);
    let (transparency, after_transparency) = TransparencyParam::random_spec(
        config.allow_transparency,
        after_hue,
    );
    let (angle, after_angle) = AngleParam::random_spec(config.allow_rotation, after_transparency);
    let (position, after_position) = PositionParam::random_spec(after_angle);
    (
        Node::Cons(
            Parameter::Index(index),
            Box::new(
                Node::Cons(
                    Parameter::Scale(scale),
                    Box::new(
                        Node::Cons(
                            Parameter::Hue(hue),
                            Box::new(
                                Node::Cons(
                                    Parameter::Transparency(transparency),
                                    Box::new(
                                        Node::Cons(
                                            Parameter::Angle(angle),
                                            Box::new(
                                                Node::Cons(
                                                    Parameter::Position(position),
                                                    Box::new(Node::Nil),
                                                ),
                                            ),
                                        ),
                                    ),
                                ),
                            ),
                        ),
                    ),
                ),
            ),
        ),
        after_position,
    )
}

/// The background: the best colour that an annealing run from a random
/// colour sees, as a picture of the size of the target; and the seed after
/// the run.
pub open spec fn background_spec(config: CollagerConfig, target: Raster<Lab>, state: u64) -> (
    Raster<Lab>,
    u64,
) {
    let (color, after_color) = drawn_color(state);
    let start = BackgroundModel { target, color };
    let (run, after_run) = annealed::<BackgroundAnnealable>(
        started::<BackgroundAnnealable>(start, BACKGROUND_TEMPERATURE),
        config.steps,
        config.steps as nat,
        after_color,
    );
    (run.best.unwrap().state.applied(), after_run)
}

/// One start of a layer: the best candidate that an annealing run from a
/// fresh random chain sees, and the seed after the run.
pub open spec fn restart_spec(
    config: CollagerConfig,
    target: Raster<Lab>,
    canvas: Raster<Lab>,
    library: Seq<Raster<Laba>>,
    state: u64,
) -> (Scored<CandidateModel>, u64) {
    let (node, after_chain) = random_chain(config, library.len() as usize, state);
    let start = CandidateModel { target, current: canvas, library, node };
    let (run, after_run) = annealed::<ImageAnnealable>(
        started::<ImageAnnealable>(start, config.starting_temperature),
        config.steps,
        config.steps as nat,
        after_chain,
    );
    (run.best.unwrap(), after_run)
}

/// The best of the first `done` starts of a layer, the earliest among
/// equals, and the seed after them.
pub open spec fn restarts_spec(
    config: CollagerConfig,
    target: Raster<Lab>,
    canvas: Raster<Lab>,
    library: Seq<Raster<Laba>>,
    done: nat,
    state: u64,
) -> (Option<Scored<CandidateModel>>, u64)
    decreases done,
{
    if done == 0 {
        (None, state)
    } else {
        let (best, before) = restarts_spec(config, target, canvas, library, (done - 1) as nat, state);
        let (candidate, after) = restart_spec(config, target, canvas, library, before);
        (
            match best {
                Some(earlier) if earlier.energy <= candidate.energy => Some(earlier),
                _ => Some(candidate),
            },
            after,
        )
    }
}

/// The picture after one layer: the best of the starts composited onto the
/// picture so far; and the seed after the starts.
pub open spec fn layer_spec(
    config: CollagerConfig,
    target: Raster<Lab>,
    canvas: Raster<Lab>,
    library: Seq<Raster<Laba>>,
    state: u64,
) -> (Raster<Lab>, u64) {
    let (best, after) = restarts_spec(config, target, canvas, library, config.starts as nat, state);
    (best.unwrap().state.applied(), after)
}

/// The picture after the first `done` layers over `canvas`, and the seed
/// after them.
pub open spec fn layers_spec(
    config: CollagerConfig,
    target: Raster<Lab>,
    canvas: Raster<Lab>,
    library: Seq<Raster<Laba>>,
    done: nat,
    state: u64,
) -> (Raster<Lab>, u64)
    decreases done,
{
    if done == 0 {
        (canvas, state)
    } else {
        let (before, seed) = layers_spec(config, target, canvas, library, (done - 1) as nat, state);
        layer_spec(config, target, before, library, seed)
    }
}

/// The collage: the background with every layer composited onto it, and
/// the seed after the whole run.
pub open spec fn collage_spec(
    config: CollagerConfig,
    target: Raster<Lab>,
    library: Seq<Raster<Laba>>,
    state: u64,
) -> (Raster<Lab>, u64) {
    let (background, after_background) = background_spec(config, target, state);
    layers_spec(config, target, background, library, config.amount as nat, after_background)
}

/// The reason for which a run is refused, if it is: an empty library, no
/// step, or no start, looked for in this order.
pub open spec fn refusal(config: CollagerConfig, count: nat) -> Option<PreconditionViolation> {
    if count == 0 {
        Some(PreconditionViolation::EmptyLibrary)
    } else if config.steps == 0 {
        Some(PreconditionViolation::ZeroSteps)
    } else if config.starts == 0 {
        Some(PreconditionViolation::ZeroStarts)
    } else {
        None
    }
}

/// The mean over the pixels of the target of their distance to the pixel
/// of `output`, rounded down; zero for a target without pixels.
pub open spec fn error_per_pixel_spec(target: Raster<Lab>, output: Raster<Lab>) -> int {
    if target.pixels.len() == 0 {
        0
    } else {
        difference_spec(target.pixels, output.pixels) / (target.pixels.len() as int)
    }
}

/// The progress that is reported before layer `layer` of `amount`, in
/// tenths of a percent: at every tenth of the layers, at every layer where
/// there are fewer than ten. No progress is reported at other layers.
pub open spec fn progress_spec(amount: u32, layer: u32) -> Option<u32> {
    let tenth: int = if amount / 10 >= 1 { amount as int / 10 } else { 1 };
    if layer < amount && layer as int % tenth == 0 {
        Some((layer * 1000 / (amount as int)) as u32)
    } else {
        None
    }
}

/// The driver of a run.
#[derive(Debug)]
pub struct Collager {
    config: CollagerConfig,
    image: LabImage,
}

impl Collager {
    /// The target is well formed.
    pub closed spec fn wf(&self) -> bool {
        self.image.wf()
    }

    /// The configuration of the run.
    pub closed spec fn config_spec(&self) -> CollagerConfig {
        self.config
    }

    /// The target of the run.
    pub closed spec fn target(&self) -> Raster<Lab> {
        self.image@
    }

    /// The driver that approximates `image` as `config` says.
    pub fn new(config: CollagerConfig, image: LabImage) -> (r: Self)
        requires
            image.wf(),
        ensures
            r.wf(),
            r.config_spec() == config,
            r.target() == image@,
    {
        Self { config, image }
    }

    /// The chain of a fresh layer for a library of `count` pictures: a
    /// random index, scale, hue, transparency, angle and position, in this
    /// order, each kind switched on or off as the configuration says.
    pub fn params(&self, count: usize, source: &mut RandomSource) -> (r: Node)
        requires
            count > 0,
        ensures
            (r, final(source)@) == random_chain(self.config_spec(), count, old(source)@),
            r.applicable(count as nat, false),
    {
        let index = IndexParam::random(count, source);
        let scale = ScaleParam::random(self.config.allow_scaling, source);
        let hue = HueParam::random(self.config.allow_hue, source);
        let transparency = TransparencyParam::random(self.config.allow_transparency, source);
        let angle = AngleParam::random(self.config.allow_rotation, source);
        let position = PositionParam::random(source);
        let r = Node::cons(
            Parameter::Index(index),
            Node::cons(
                Parameter::Scale(scale),
                Node::cons(
                    Parameter::Hue(hue),
                    Node::cons(
                        Parameter::Transparency(transparency),
                        Node::cons(
                            Parameter::Angle(angle),
                            Node::cons(Parameter::Position(position), Node::nil()),
                        ),
                    ),
                ),
            ),
        );
        proof {
            reveal_with_fuel(Node::applicable, 8);
        }
        r
    }

    /// The background: a flat picture of the best colour that an annealing
    /// run of the configured steps sees. Refused where the configuration
    /// asks for no step.
    pub fn background(&self, source: &mut RandomSource) -> (r: Result<
        LabImage,
        PreconditionViolation,
    >)
        requires
            self.wf(),
        ensures
            match r {
                Ok(canvas) => {
                    &&& self.config_spec().steps > 0
                    &&& canvas.wf()
                    &&& (canvas@, final(source)@) == background_spec(
                        self.config_spec(),
                        self.target(),
                        old(source)@,
                    )
                },
                Err(e) => {
                    &&& self.config_spec().steps == 0
                    &&& e == PreconditionViolation::ZeroSteps
                    &&& final(source)@ == old(source)@
                },
            },
    {
        if self.config.steps == 0 {
            return Err(PreconditionViolation::ZeroSteps);
        }
        let background = BackgroundAnnealable::new(&self.image, source);
        match Annealer::new(background, BACKGROUND_TEMPERATURE).anneal(self.config.steps, source) {
            Ok(best) => Ok(best.applied()),
            Err(e) => Err(e),
        }
    }

    /// One layer: the best candidate of the configured starts, each
    /// annealed from a fresh random chain, composited onto `canvas`.
    /// Refused where the library is empty or the configuration asks for no
    /// step or no start.
    pub fn layer(&self, images: &[LabaImage], canvas: LabImage, source: &mut RandomSource) -> (r:
        Result<LabImage, PreconditionViolation>)
        requires
            self.wf(),
            library_wf(images@),
            canvas.wf(),
        ensures
            match r {
                Ok(next) => {
                    &&& refusal(self.config_spec(), images@.len()) is None
                    &&& next.wf()
                    &&& (next@, final(source)@) == layer_spec(
                        self.config_spec(),
                        self.target(),
                        canvas@,
                        library_model(images@),
                        old(source)@,
                    )
                },
                Err(e) => {
                    &&& refusal(self.config_spec(), images@.len()) == Some(e)
                    &&& final(source)@ == old(source)@
                },
            },
    {
        if images.len() == 0 {
            return Err(PreconditionViolation::EmptyLibrary);
        }
        if self.config.steps == 0 {
            return Err(PreconditionViolation::ZeroSteps);
        }
        if self.config.starts == 0 {
            return Err(PreconditionViolation::ZeroStarts);
        }
        let ghost seed = source@;
        let ghost library = library_model(images@);
        let mut best: Option<StateEnergy<ImageAnnealable>> = None;
        let mut start: u32 = 0;
        while start < self.config.starts
            invariant
                self.wf(),
                library_wf(images@),
                canvas.wf(),
                images@.len() > 0,
                library == library_model(images@),
                self.config.steps > 0,
                start <= self.config.starts,
                start > 0 ==> best is Some,
                match best {
                    Some(candidate) => candidate.state.wf(),
                    None => true,
                },
                (
                    match best {
                        Some(candidate) => Some(candidate@),
                        None => None,
                    },
                    source@,
                ) == restarts_spec(self.config, self.image@, canvas@, library, start as nat, seed),
            decreases self.config.starts - start,
        {
            let node = self.params(images.len(), source);
            let annealable = ImageAnnealable::new(&self.image, &canvas, images, node);
            let candidate = Annealer::new(
                annealable,
                self.config.starting_temperature,
            ).anneal_with_energy(self.config.steps, source);
            match candidate {
                Ok(candidate) => {
                    let better = match &best {
                        Some(earlier) => candidate.energy < earlier.energy,
                        None => true,
                    };
                    if better {
                        best = Some(candidate);
                    }
                },
                Err(_) => {},
            }
            start = start + 1;
        }
        match best {
            Some(candidate) => Ok(candidate.state.applied()),
            None => Err(PreconditionViolation::ZeroStarts),
        }
    }

    /// The collage: the background with the configured number of layers
    /// composited onto it, one after the other. Refused, before anything is
    /// drawn or annealed, where the library is empty or the configuration
    /// asks for no step or no start.
    pub fn collage(&self, images: &[LabaImage], source: &mut RandomSource) -> (r: Result<
        LabImage,
        PreconditionViolation,
    >)
        requires
            self.wf(),
            library_wf(images@),
        ensures
            match r {
                Ok(output) => {
                    &&& refusal(self.config_spec(), images@.len()) is None
                    &&& output.wf()
                    &&& output@.width == self.target().width
                    &&& output@.height == self.target().height
                    &&& (output@, final(source)@) == collage_spec(
                        self.config_spec(),
                        self.target(),
                        library_model(images@),
                        old(source)@,
                    )
                },
                Err(e) => {
                    &&& refusal(self.config_spec(), images@.len()) == Some(e)
                    &&& final(source)@ == old(source)@
                },
            },
    {
        if images.len() == 0 {
            return Err(PreconditionViolation::EmptyLibrary);
        }
        if self.config.steps == 0 {
            return Err(PreconditionViolation::ZeroSteps);
        }
        if self.config.starts == 0 {
            return Err(PreconditionViolation::ZeroStarts);
        }
        let ghost seed = source@;
        let ghost library = library_model(images@);
        let mut output = match self.background(source) {
            Ok(canvas) => canvas,
            Err(e) => {
                return Err(e);
            },
        };
        let ghost background = output@;
        let ghost after_background = source@;
        let mut layer: u32 = 0;
        while layer < self.config.amount
            invariant
                self.wf(),
                library_wf(images@),
                images@.len() > 0,
                library == library_model(images@),
                self.config.steps > 0,
                self.config.starts > 0,
                layer <= self.config.amount,
                output.wf(),
                (output@, source@) == layers_spec(
                    self.config,
                    self.image@,
                    background,
                    library,
                    layer as nat,
                    after_background,
                ),
            decreases self.config.amount - layer,
        {
            output = match self.layer(images, output, source) {
                Ok(next) => next,
                Err(e) => {
                    return Err(e);
                },
            };
            layer = layer + 1;
        }
        proof {
            lemma_collage_size(self.config, self.image@, library, seed);
        }
        Ok(output)
    }

    /// The mean over the pixels of the target of their distance to the
    /// pixel of `output`.
    pub fn error_per_pixel(&self, output: &LabImage) -> (error: u128)
        requires
            self.wf(),
        ensures
            error == error_per_pixel_spec(self.target(), output@),
    {
        let count = self.image.pixels().len();
        if count == 0 {
            0
        } else {
            UsefulOps::image_difference(self.image.pixels(), output.pixels()) / count as u128
        }
    }

    /// The progress to report before the given layer, in tenths of a
    /// percent, if any is due.
    pub fn progress(&self, layer: u32) -> (r: Option<u32>)
        ensures
            r == progress_spec(self.config_spec().amount, layer),
    {
        let amount = self.config.amount;
        let tenth = if amount / 10 >= 1 { amount / 10 } else { 1 };
        if layer < amount && layer % tenth == 0 {
            proof {
                crate::fixed::lemma_div_between(layer * 1000, 0, 1000, amount as int);
            }
            Some((layer as u64 * 1000 / amount as u64) as u32)
        } else {
            None
        }
    }
}

/// The best of any number of starts of a layer, if there is one, is a
/// candidate for the picture that the layer was started on.
proof fn lemma_restarts_keep_canvas(
    config: CollagerConfig,
    target: Raster<Lab>,
    canvas: Raster<Lab>,
    library: Seq<Raster<Laba>>,
    done: nat,
    state: u64,
)
    requires
        config.steps > 0,
    ensures
        done > 0 ==> restarts_spec(config, target, canvas, library, done, state).0 is Some,
        restarts_spec(config, target, canvas, library, done, state).0 is Some ==> restarts_spec(
            config,
            target,
            canvas,
            library,
            done,
            state,
        ).0.unwrap().state.current == canvas,
    decreases done,
{
    if done > 0 {
        lemma_restarts_keep_canvas(config, target, canvas, library, (done - 1) as nat, state);
        let before = restarts_spec(config, target, canvas, library, (done - 1) as nat, state).1;
        let (node, after_chain) = random_chain(config, library.len() as usize, before);
        let start = CandidateModel { target, current: canvas, library, node };
        let run = started::<ImageAnnealable>(start, config.starting_temperature);
        crate::annealer::lemma_best_is_least::<ImageAnnealable>(
            run,
            config.steps,
            config.steps as nat,
            after_chain,
            0,
        );
        crate::annealer::lemma_run_keeps::<ImageAnnealable>(
            run,
            config.steps,
            config.steps as nat,
            after_chain,
            |model: CandidateModel| model.current == canvas,
        );
    }
}

/// The picture after any number of layers has the dimensions of the
/// picture that the layers were composited onto.
proof fn lemma_layers_keep_size(
    config: CollagerConfig,
    target: Raster<Lab>,
    canvas: Raster<Lab>,
    library: Seq<Raster<Laba>>,
    done: nat,
    state: u64,
)
    requires
        config.steps > 0,
        config.starts > 0,
    ensures
        layers_spec(config, target, canvas, library, done, state).0.width == canvas.width,
        layers_spec(config, target, canvas, library, done, state).0.height == canvas.height,
    decreases done,
{
    if done > 0 {
        lemma_layers_keep_size(config, target, canvas, library, (done - 1) as nat, state);
        let (before, seed) = layers_spec(config, target, canvas, library, (done - 1) as nat, state);
        lemma_restarts_keep_canvas(config, target, before, library, config.starts as nat, seed);
        let best = restarts_spec(config, target, before, library, config.starts as nat, seed).0.unwrap();
        crate::params::lemma_applies_keeps_size(
            best.state.node,
            best.state.library,
            ImageStateModel { image: best.state.current, add_image: None, angle: None },
        );
    }
}

/// The collage of a run that is not refused has the dimensions of the
/// target.
pub proof fn lemma_collage_size(
    config: CollagerConfig,
    target: Raster<Lab>,
    library: Seq<Raster<Laba>>,
    state: u64,
)
    requires
        config.steps > 0,
        config.starts > 0,
    ensures
        collage_spec(config, target, library, state).0.width == target.width,
        collage_spec(config, target, library, state).0.height == target.height,
{
    let (color, after_color) = drawn_color(state);
    let start = BackgroundModel { target, color };
    let run = started::<BackgroundAnnealable>(start, BACKGROUND_TEMPERATURE);
    crate::annealer::lemma_best_is_least::<BackgroundAnnealable>(
        run,
        config.steps,
        config.steps as nat,
        after_color,
        0,
    );
    crate::annealer::lemma_run_keeps::<BackgroundAnnealable>(
        run,
        config.steps,
        config.steps as nat,
        after_color,
        |model: BackgroundModel| model.target == target,
    );
    let (background, after_background) = background_spec(config, target, state);
    lemma_layers_keep_size(
        config,
        target,
        background,
        library,
        config.amount as nat,
        after_background,
    );
}

} // verus!

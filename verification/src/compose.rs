//! Preprocessors: steps applied one after another.

use crate::error::{Error, ErrorModel};
use crate::picture;
use crate::picture::{default_resize, FilterType, Picture, PictureModel};
use crate::steps;
use crate::steps::{
    CenterCrop, ConvertToRGB, Normalize, PILToNDarray, Rescale, ResizeDeepGhs, ResizePillow, Step,
};
use crate::tensor::{ArithmeticModel, Tensor, TensorModel};
use crate::transform;
use crate::transform::{
    fit_deepghs, DataModel, Resampler, Resize, Taker, Transform, TransformData,
};
use vstd::prelude::*;

verus! {

/// One of the steps of a preprocessor.
#[derive(Debug)]
pub enum Stage {
    ConvertToRGB(ConvertToRGB),
    Resize(Resize),
    ResizePillow(ResizePillow),
    ResizeDeepGhs(ResizeDeepGhs),
    CenterCrop(CenterCrop),
    PILToNDarray(PILToNDarray),
    Rescale(Rescale),
    Normalize(Normalize),
}

/// Whether a picture can be resized in width first and in height then.
fn can_resize_pillow(width: u32, height: u32, new_width: u32, new_height: u32) -> (fits: bool)
    ensures
        fits == steps::pillow_resizable(width, height, new_width, new_height),
{
    picture::can_resize(width, height, new_width, height) && picture::can_resize(
        new_width,
        height,
        new_width,
        new_height,
    )
}

impl Stage {
    /// What the step does.
    pub open spec fn step(self) -> Step {
        match self {
            Stage::ConvertToRGB(_) => Step::ConvertToRgb,
            Stage::Resize(stage) => stage.step(),
            Stage::ResizePillow(stage) => stage.step(),
            Stage::ResizeDeepGhs(stage) => stage.step(),
            Stage::CenterCrop(stage) => stage.step(),
            Stage::PILToNDarray(_) => Step::ToTensor,
            Stage::Rescale(stage) => stage.step(),
            Stage::Normalize(stage) => stage.step(),
        }
    }

    /// Whether memory and the limits on resizing allow the step on a picture of the
    /// size given.
    pub fn fits(&self, width: u32, height: u32) -> (fits: bool)
        ensures
            fits == self.step().fits(width, height),
    {
        match self {
            Stage::Resize(stage) => {
                let (w, h): (u32, u32) = stage.target_dimensions(width, height);
                w == width && h == height || picture::can_resize(width, height, w, h)
            },
            Stage::ResizePillow(stage) => can_resize_pillow(
                width,
                height,
                stage.width,
                stage.height,
            ),
            Stage::ResizeDeepGhs(stage) => {
                if width == 0 || height == 0 {
                    return false;
                }
                let (w, h): (u32, u32) = fit_deepghs(stage.size, stage.max_size, width, height);
                let w_or_one: u32 = if w >= 1 {
                    w
                } else {
                    1
                };
                let h_or_one: u32 = if h >= 1 {
                    h
                } else {
                    1
                };
                w == width && h == height || can_resize_pillow(width, height, w_or_one, h_or_one)
            },
            Stage::CenterCrop(stage) => picture::has_room(stage.size.0, stage.size.1),
            _ => true,
        }
    }

    /// The size of the picture that the step makes of one of the size given, where it makes
    /// a picture.
    fn size_after(&self, width: u32, height: u32) -> (size: Option<(u32, u32)>)
        requires
            self.step().fits(width, height),
        ensures
            size == self.step().size_after(width, height),
    {
        match self {
            Stage::ConvertToRGB(_) => Some((width, height)),
            Stage::Resize(stage) => Some(stage.target_dimensions(width, height)),
            Stage::ResizePillow(stage) => Some((stage.width, stage.height)),
            Stage::ResizeDeepGhs(stage) => {
                let (w, h): (u32, u32) = fit_deepghs(stage.size, stage.max_size, width, height);
                Some(
                    (
                        if w >= 1 {
                            w
                        } else {
                            1
                        },
                        if h >= 1 {
                            h
                        } else {
                            1
                        },
                    ),
                )
            },
            Stage::CenterCrop(stage) => if width >= stage.size.0 && height >= stage.size.1 {
                Some(stage.size)
            } else {
                None
            },
            Stage::PILToNDarray(_) | Stage::Rescale(_) | Stage::Normalize(_) => None,
        }
    }
}

impl Stage {
    /// Applies the step, with a function that resizes pictures.
    fn apply<R: Fn(Picture, u32, u32, FilterType) -> Result<Picture, Error>>(
        &self,
        data: TransformData,
        resize: &R,
    ) -> (result: Result<TransformData, Error>)
        requires
            self.step().admits(data@, transform::taker(*resize), transform::resampler(*resize)),
        ensures
            self.step().outcome(
                data@,
                transform::resampler(*resize),
                transform::data_model(result),
            ),
    {
        match self {
            Stage::ConvertToRGB(stage) => stage.apply(data),
            Stage::Resize(stage) => stage.apply(data, resize),
            Stage::ResizePillow(stage) => stage.apply(data, resize),
            Stage::ResizeDeepGhs(stage) => stage.apply(data, resize),
            Stage::CenterCrop(stage) => stage.apply(data),
            Stage::PILToNDarray(stage) => stage.apply(data),
            Stage::Rescale(stage) => stage.apply(data),
            Stage::Normalize(stage) => stage.apply(data),
        }
    }
}

/// Whether `result` may come out when the steps are applied one after another.
pub open spec fn run(
    steps: Seq<Step>,
    data: DataModel,
    resize: Resampler,
    result: Result<DataModel, ErrorModel>,
) -> bool
    decreases steps.len(),
{
    if steps.len() == 0 {
        result == Ok::<DataModel, ErrorModel>(data)
    } else {
        ||| exists|next: DataModel| #[trigger]
            steps[0].outcome(data, resize, Ok(next)) && run(
                steps.drop_first(),
                next,
                resize,
                result,
            )
        ||| result matches Err(error) && steps[0].outcome(data, resize, Err(error))
    }
}

/// Whether the steps can be applied one after another, whatever comes out of each.
pub open spec fn run_admits(
    steps: Seq<Step>,
    data: DataModel,
    takes: Taker,
    gives: Resampler,
) -> bool
    decreases steps.len(),
{
    steps.len() > 0 ==> {
        &&& steps[0].admits(data, takes, gives)
        &&& forall|next: DataModel| #[trigger]
            steps[0].outcome(data, gives, Ok(next)) ==> run_admits(
                steps.drop_first(),
                next,
                takes,
                gives,
            )
    }
}

/// Whether memory and the limits on resizing allow the steps on a picture of the size
/// given, as far as there is a picture.
pub open spec fn sizes_fit(steps: Seq<Step>, size: Option<(u32, u32)>) -> bool
    decreases steps.len(),
{
    match size {
        Some((width, height)) => steps.len() > 0 ==> {
            &&& steps[0].fits(width, height)
            &&& sizes_fit(steps.drop_first(), steps[0].size_after(width, height))
        },
        None => true,
    }
}

/// Whether the steps can be applied to a picture, whatever a resizer makes of it: memory
/// allows the crops, and where the sides of the picture are to keep their ratio, none of
/// them is 0. The sides of the picture are known not to be 0 where `sides` says so.
pub open spec fn any_size_fits(steps: Seq<Step>, sides: bool) -> bool
    decreases steps.len(),
{
    steps.len() > 0 ==> match steps[0] {
        Step::ConvertToRgb => any_size_fits(steps.drop_first(), sides),
        Step::Resize { .. } | Step::ResizePillow { .. } => any_size_fits(
            steps.drop_first(),
            false,
        ),
        Step::ResizeDeepGhs { .. } => sides && any_size_fits(steps.drop_first(), false),
        Step::CenterCrop { size } => picture::room(size.0, size.1) && any_size_fits(
            steps.drop_first(),
            size.0 > 0 && size.1 > 0,
        ),
        Step::ToTensor | Step::Rescale { .. } | Step::Normalize { .. } => true,
    }
}

/// The size of a picture.
pub open spec fn size_of(data: DataModel) -> Option<(u32, u32)> {
    match data {
        DataModel::Image(picture) => Some((picture.width, picture.height)),
        DataModel::NdArray(_) => None,
    }
}

/// What a preprocessor does with a picture in red, green and blue.
pub struct Plan {
    /// How it is resized.
    pub resize: Option<Step>,
    /// The width and the height that it is cropped to.
    pub crop: Option<(u32, u32)>,
    /// The number in single precision that its tensor is multiplied by.
    pub scale: Option<u32>,
    /// The means and the standard deviations by which its tensor is normalized.
    pub normal: Option<(Seq<u32>, Seq<u32>)>,
}

impl Plan {
    /// Whether it resizes by a step that does so.
    pub open spec fn wf(self) -> bool {
        self.resize matches Some(step) ==> step.resizes()
    }

    /// The steps on the picture.
    pub open spec fn on_picture(self) -> Seq<Step> {
        let resize = match self.resize {
            Some(step) => seq![step],
            None => seq![],
        };
        let crop = match self.crop {
            Some(size) => seq![Step::CenterCrop { size }],
            None => seq![],
        };
        seq![Step::ConvertToRgb] + resize + crop
    }

    /// The steps on the tensor.
    pub open spec fn on_tensor(self) -> Seq<Step> {
        let rescale = match self.scale {
            Some(scale) => seq![Step::Rescale { scale }],
            None => seq![],
        };
        let normalize = match self.normal {
            Some((mean, std)) => seq![Step::Normalize { mean, std }],
            None => seq![],
        };
        rescale + normalize
    }

    /// All steps in order.
    pub open spec fn steps(self) -> Seq<Step> {
        self.on_picture() + seq![Step::ToTensor] + self.on_tensor()
    }

    /// Whether memory and the limits on resizing allow the steps on a picture of the
    /// size given.
    pub open spec fn fits(self, width: u32, height: u32) -> bool {
        &&& self.resize matches Some(step) ==> step.fits(width, height)
        &&& self.crop matches Some(size) ==> picture::room(size.0, size.1)
    }
}

impl Plan {
    /// The width and the height of the tensor of a picture of the size given.
    pub open spec fn size(self, width: u32, height: u32) -> (u32, u32) {
        match (self.crop, self.resize) {
            (Some(size), _) => size,
            (None, Some(step)) => step.resized_size(width, height),
            (None, None) => (width, height),
        }
    }

    /// The arithmetic on the tensor.
    pub open spec fn arithmetic(self) -> Seq<ArithmeticModel> {
        let rescale = match self.scale {
            Some(scale) => seq![ArithmeticModel::Rescale { scale }],
            None => seq![],
        };
        let normalize = match self.normal {
            Some((mean, std)) => seq![ArithmeticModel::Normalize { mean, std }],
            None => seq![],
        };
        rescale + normalize
    }
}

/// What stages do.
pub open spec fn steps_of(stages: Seq<Stage>) -> Seq<Step> {
    stages.map_values(|stage: Stage| stage.step())
}

/// A preprocessor.
#[derive(Debug)]
pub struct Compose {
    transforms: Vec<Stage>,
}

impl Compose {
    /// What the preprocessor does, step by step.
    pub closed spec fn steps(self) -> Seq<Step> {
        steps_of(self.transforms@)
    }

    /// Makes a preprocessor of steps.
    pub fn new(transforms: Vec<Stage>) -> (compose: Compose)
        ensures
            compose.steps() == steps_of(transforms@),
    {
        Compose { transforms }
    }

    /// Whether memory and the limits on resizing allow the steps on a picture of the
    /// size given.
    pub fn fits(&self, width: u32, height: u32) -> (fits: bool)
        ensures
            fits == sizes_fit(self.steps(), Some((width, height))),
    {
        let ghost steps = self.steps();
        let mut size: Option<(u32, u32)> = Some((width, height));
        let mut i: usize = 0;
        assert(steps.skip(0) =~= steps);
        while i < self.transforms.len()
            invariant
                i <= self.transforms@.len(),
                steps == self.steps(),
                steps.len() == self.transforms@.len(),
                sizes_fit(steps, Some((width, height))) == sizes_fit(steps.skip(i as int), size),
            decreases self.transforms@.len() - i,
        {
            let ghost rest = steps.skip(i as int);
            assert(rest[0] == self.transforms@[i as int].step());
            assert(rest.drop_first() =~= steps.skip(i + 1));
            match size {
                Some((w, h)) => {
                    if !self.transforms[i].fits(w, h) {
                        return false;
                    }
                    size = self.transforms[i].size_after(w, h);
                },
                None => return true,
            }
            i += 1;
        }
        true
    }
}

impl Compose {
    /// Whether the steps can be applied to a picture of the size given, whatever a resizer
    /// makes of it.
    pub fn fits_any_resizer(&self, width: u32, height: u32) -> (fits: bool)
        ensures
            fits == any_size_fits(self.steps(), width > 0 && height > 0),
    {
        let ghost steps = self.steps();
        let mut sides: bool = width > 0 && height > 0;
        let mut i: usize = 0;
        assert(steps.skip(0) =~= steps);
        while i < self.transforms.len()
            invariant
                i <= self.transforms@.len(),
                steps == self.steps(),
                steps.len() == self.transforms@.len(),
                any_size_fits(steps, width > 0 && height > 0) == any_size_fits(
                    steps.skip(i as int),
                    sides,
                ),
            decreases self.transforms@.len() - i,
        {
            let ghost rest = steps.skip(i as int);
            assert(rest[0] == self.transforms@[i as int].step());
            assert(rest.drop_first() =~= steps.skip(i + 1));
            match &self.transforms[i] {
                Stage::ConvertToRGB(_) => {},
                Stage::Resize(_) | Stage::ResizePillow(_) => {
                    sides = false;
                },
                Stage::ResizeDeepGhs(_) => {
                    if !sides {
                        return false;
                    }
                    sides = false;
                },
                Stage::CenterCrop(stage) => {
                    if !picture::has_room(stage.size.0, stage.size.1) {
                        return false;
                    }
                    sides = stage.size.0 > 0 && stage.size.1 > 0;
                },
                Stage::PILToNDarray(_) | Stage::Rescale(_) | Stage::Normalize(_) => {
                    return true;
                },
            }
            i += 1;
        }
        true
    }
}

impl Transform for Compose {
    open spec fn admits(&self, data: DataModel, takes: Taker, gives: Resampler) -> bool {
        run_admits(self.steps(), data, takes, gives)
    }

    open spec fn outcome(
        &self,
        data: DataModel,
        resize: Resampler,
        result: Result<DataModel, ErrorModel>,
    ) -> bool {
        run(self.steps(), data, resize, result)
    }

    fn transform_with_resize<R: Fn(Picture, u32, u32, FilterType) -> Result<Picture, Error>>(
        &self,
        data: TransformData,
        resize: &R,
    ) -> (result: Result<TransformData, Error>) {
        let ghost start = data@;
        let ghost steps = self.steps();
        let ghost takes = transform::taker(*resize);
        let ghost gives = transform::resampler(*resize);
        let mut current = data;
        let mut i: usize = 0;
        assert(steps.skip(0) =~= steps);
        while i < self.transforms.len()
            invariant
                i <= self.transforms@.len(),
                start == data@,
                steps == self.steps(),
                steps.len() == self.transforms@.len(),
                takes == transform::taker(*resize),
                gives == transform::resampler(*resize),
                run_admits(steps.skip(i as int), current@, takes, gives),
                forall|result: Result<DataModel, ErrorModel>|
                    #![trigger run(steps.skip(i as int), current@, gives, result)]
                    run(steps.skip(i as int), current@, gives, result) ==> run(
                        steps,
                        start,
                        gives,
                        result,
                    ),
            decreases self.transforms@.len() - i,
        {
            let ghost before = current@;
            let ghost step = steps[i as int];
            let ghost rest = steps.skip(i as int);
            proof {
                assert(step == self.transforms@[i as int].step());
                assert(rest[0] == step);
                assert(rest.drop_first() =~= steps.skip(i + 1));
            }
            match self.transforms[i].apply(current, resize) {
                Ok(next) => {
                    proof {
                        assert(rest[0].outcome(before, gives, Ok(next@)));
                        assert forall|result: Result<DataModel, ErrorModel>|
                            #![trigger run(steps.skip(i + 1), next@, gives, result)]
                            run(steps.skip(i + 1), next@, gives, result) implies run(
                            steps,
                            start,
                            gives,
                            result,
                        ) by {
                            assert(run(rest, before, gives, result));
                        }
                    }
                    current = next;
                },
                Err(error) => {
                    proof {
                        let result: Result<DataModel, ErrorModel> = Err(error@);
                        assert(rest[0].outcome(before, gives, Err(error@)));
                        assert(run(rest, before, gives, result));
                    }
                    return Err(error);
                },
            }
            i += 1;
        }
        proof {
            let result: Result<DataModel, ErrorModel> = Ok(current@);
            assert(run(steps.skip(i as int), current@, gives, result));
        }
        Ok(current)
    }
}

/// What a preprocessor gives for a picture.
pub open spec fn tensor_model(tensor: Result<Tensor, Error>) -> Result<DataModel, ErrorModel> {
    match tensor {
        Ok(tensor) => Ok(DataModel::NdArray(tensor@)),
        Err(error) => Err(error@),
    }
}

/// What is left of the outcome of steps where a tensor is wanted.
pub open spec fn wanted(result: Result<DataModel, ErrorModel>) -> Result<DataModel, ErrorModel> {
    match result {
        Ok(DataModel::Image(_)) => Err(transform::convert_error()),
        _ => result,
    }
}

impl Compose {
    /// Whether `result` may come out when a picture is preprocessed.
    pub open spec fn gives_for(
        self,
        picture: PictureModel,
        resize: Resampler,
        result: Result<DataModel, ErrorModel>,
    ) -> bool {
        &&& exists|end: Result<DataModel, ErrorModel>| #[trigger]
            run(self.steps(), DataModel::Image(picture), resize, end) && result == wanted(end)
        &&& forall|plan: Plan|
            plan.wf() && self.steps() == #[trigger] plan.steps() ==> plan.outcome(
                picture,
                resize,
                result,
            )
    }

    /// Turns a picture into the input of a model.
    pub fn preprocess_image(&self, image: Picture) -> (tensor: Result<Tensor, Error>)
        requires
            image@.wf(),
            sizes_fit(self.steps(), Some((image.width, image.height))),
        ensures
            self.gives_for(
                image@,
                transform::resampler(default_resize),
                tensor_model(tensor),
            ),
    {
        proof {
            transform::functions_that_resize_are_proper(default_resize);
            fitting_pictures_are_admitted(
                self.steps(),
                DataModel::Image(image@),
                transform::taker(default_resize),
                transform::resampler(default_resize),
            );
        }
        self.preprocess_image_with_resize(image, &default_resize)
    }

    /// Turns a picture into the input of a model, with a function that resizes
    /// pictures.
    pub fn preprocess_image_with_resize<
        R: Fn(Picture, u32, u32, FilterType) -> Result<Picture, Error>,
    >(&self, image: Picture, resize: &R) -> (tensor: Result<Tensor, Error>)
        requires
            self.admits(
                DataModel::Image(image@),
                transform::taker(*resize),
                transform::resampler(*resize),
            ),
        ensures
            self.gives_for(image@, transform::resampler(*resize), tensor_model(tensor)),
    {
        let ghost picture = image@;
        let result = self.transform_with_resize(TransformData::Image(image), resize);
        proof {
            let gives = transform::resampler(*resize);
            let end = transform::data_model(result);
            assert(run(self.steps(), DataModel::Image(picture), gives, end));
            assert forall|plan: Plan|
                plan.wf() && self.steps() == #[trigger] plan.steps() implies plan.outcome(
                picture,
                gives,
                wanted(end),
            ) by {
                steps_follow_their_plan(plan, picture, gives, end);
            }
        }
        match result {
            Ok(data) => data.array(),
            Err(error) => Err(error),
        }
    }
}

/// A step that memory and the limits on resizing allow on a picture can be applied to it
/// with every resizer that takes the pictures that can be resized and gives the sizes
/// that it is asked for, and makes a picture of the size that it should, where it makes
/// one.
pub proof fn fitting_steps_are_admitted(
    step: Step,
    picture: PictureModel,
    takes: Taker,
    gives: Resampler,
    next: PictureModel,
)
    requires
        transform::proper(takes, gives),
        picture.wf(),
        step.fits(picture.width, picture.height),
    ensures
        step.admits_picture(picture, takes, gives),
        step.picture_outcome(picture, gives, Ok(DataModel::Image(next))) ==> next.wf()
            && step.size_after(picture.width, picture.height) == Some((next.width, next.height)),
{
    crate::properties::conversion_keeps_rgb(picture);
    if let Step::CenterCrop { size } = step {
        if picture.width >= size.0 && picture.height >= size.1 {
            picture::lemma_cropped_wf(
                picture,
                ((picture.width - size.0) / 2) as u32,
                ((picture.height - size.1) / 2) as u32,
                size.0,
                size.1,
            );
        }
    }
}

/// Steps that memory and the limits on resizing allow on a picture can be applied to it
/// with every resizer that takes the pictures that can be resized and gives the sizes
/// that it is asked for.
pub proof fn fitting_pictures_are_admitted(
    steps: Seq<Step>,
    data: DataModel,
    takes: Taker,
    gives: Resampler,
)
    requires
        transform::proper(takes, gives),
        data matches DataModel::Image(picture) ==> picture.wf(),
        sizes_fit(steps, size_of(data)),
    ensures
        run_admits(steps, data, takes, gives),
    decreases steps.len(),
{
    if steps.len() > 0 {
        let step = steps[0];
        if let DataModel::Image(picture) = data {
            fitting_steps_are_admitted(step, picture, takes, gives, picture);
        }
        assert forall|next: DataModel| #[trigger]
            steps[0].outcome(data, gives, Ok(next)) implies run_admits(
            steps.drop_first(),
            next,
            takes,
            gives,
        ) by {
            match (data, next) {
                (DataModel::Image(picture), DataModel::Image(image)) => {
                    fitting_steps_are_admitted(step, picture, takes, gives, image);
                },
                (DataModel::NdArray(tensor), DataModel::Image(_)) => {
                    assert(Ok::<DataModel, ErrorModel>(next) == step.tensor_outcome(tensor));
                },
                _ => {},
            }
            fitting_pictures_are_admitted(steps.drop_first(), next, takes, gives);
        }
    }
}

/// All steps can be applied to a tensor.
proof fn lemma_tensors_are_admitted(
    steps: Seq<Step>,
    tensor: TensorModel,
    takes: Taker,
    gives: Resampler,
)
    ensures
        run_admits(steps, DataModel::NdArray(tensor), takes, gives),
    decreases steps.len(),
{
    if steps.len() > 0 {
        let data = DataModel::NdArray(tensor);
        assert forall|next: DataModel| #[trigger]
            steps[0].outcome(data, gives, Ok(next)) implies run_admits(
            steps.drop_first(),
            next,
            takes,
            gives,
        ) by {
            assert(Ok::<DataModel, ErrorModel>(next) == steps[0].tensor_outcome(tensor));
            lemma_tensors_are_admitted(steps.drop_first(), next->NdArray_0, takes, gives);
        }
    }
}

/// Steps that can be applied to a picture whatever a resizer makes of it can be applied to
/// it with every resizer that takes all pictures.
pub proof fn any_resizer_is_admitted(
    steps: Seq<Step>,
    picture: PictureModel,
    sides: bool,
    takes: Taker,
    gives: Resampler,
)
    requires
        transform::total(takes, gives),
        picture.wf(),
        sides ==> picture.width > 0 && picture.height > 0,
        any_size_fits(steps, sides),
    ensures
        run_admits(steps, DataModel::Image(picture), takes, gives),
    decreases steps.len(),
{
    if steps.len() > 0 {
        let step = steps[0];
        let data = DataModel::Image(picture);
        crate::properties::conversion_keeps_rgb(picture);
        if let Step::CenterCrop { size } = step {
            if picture.width >= size.0 && picture.height >= size.1 {
                picture::lemma_cropped_wf(
                    picture,
                    ((picture.width - size.0) / 2) as u32,
                    ((picture.height - size.1) / 2) as u32,
                    size.0,
                    size.1,
                );
            }
        }
        let sides_after = match step {
            Step::ConvertToRgb => sides,
            Step::CenterCrop { size } => size.0 > 0 && size.1 > 0,
            _ => false,
        };
        assert forall|next: DataModel| #[trigger]
            steps[0].outcome(data, gives, Ok(next)) implies run_admits(
            steps.drop_first(),
            next,
            takes,
            gives,
        ) by {
            match next {
                DataModel::Image(image) => {
                    any_resizer_is_admitted(steps.drop_first(), image, sides_after, takes, gives);
                },
                DataModel::NdArray(tensor) => {
                    lemma_tensors_are_admitted(steps.drop_first(), tensor, takes, gives);
                },
            }
        }
    }
}

/// What memory and the limits on resizing allow a plan is what they allow its steps.
pub proof fn plans_fit_as_their_steps(plan: Plan, width: u32, height: u32)
    requires
        plan.wf(),
    ensures
        sizes_fit(plan.steps(), Some((width, height))) == plan.fits(width, height),
{
    reveal_with_fuel(sizes_fit, 5);
    let steps = plan.steps();
    let after = steps.drop_first();
    assert(steps[0] == Step::ConvertToRgb);
    if plan.resize is Some {
        assert(after[0] == plan.resize->0);
        if plan.crop is Some {
            assert(after.drop_first()[0] == Step::CenterCrop { size: plan.crop->0 });
            assert(after.drop_first().drop_first()[0] == Step::ToTensor);
        } else {
            assert(after.drop_first()[0] == Step::ToTensor);
        }
    } else if plan.crop is Some {
        assert(after[0] == Step::CenterCrop { size: plan.crop->0 });
        assert(after.drop_first()[0] == Step::ToTensor);
    } else {
        assert(after[0] == Step::ToTensor);
    }
}

/// Whether data that steps are applied to goes through the values of `trace`, one after
/// each step, and ends with `result`: the last value where every step succeeds, and the
/// error of the step after the last value otherwise.
pub open spec fn traced(
    steps: Seq<Step>,
    data: DataModel,
    resize: Resampler,
    trace: Seq<DataModel>,
    result: Result<DataModel, ErrorModel>,
) -> bool {
    &&& 1 <= trace.len() <= steps.len() + 1
    &&& trace[0] == data
    &&& forall|i: int|
        0 <= i < trace.len() - 1 ==> (#[trigger] steps[i]).outcome(
            trace[i],
            resize,
            Ok(trace[i + 1]),
        )
    &&& match result {
        Ok(end) => trace.len() == steps.len() + 1 && trace.last() == end,
        Err(error) => trace.len() <= steps.len() && steps[trace.len() - 1].outcome(
            trace.last(),
            resize,
            Err(error),
        ),
    }
}

/// Steps are applied in order, each to what the one before it gave, until one of them
/// fails or none is left: what comes out is the value of the last one or the error of the
/// first that fails, and data that no step is applied to comes out as it is.
pub proof fn steps_apply_in_order(
    steps: Seq<Step>,
    data: DataModel,
    resize: Resampler,
    result: Result<DataModel, ErrorModel>,
)
    ensures
        run(steps, data, resize, result) <==> exists|trace: Seq<DataModel>| #[trigger]
            traced(steps, data, resize, trace, result),
        steps.len() == 0 ==> (run(steps, data, resize, result) <==> result == Ok::<
            DataModel,
            ErrorModel,
        >(data)),
    decreases steps.len(),
{
    if run(steps, data, resize, result) {
        if steps.len() == 0 {
            assert(traced(steps, data, resize, seq![data], result));
        } else if exists|next: DataModel| #[trigger]
            steps[0].outcome(data, resize, Ok(next)) && run(
                steps.drop_first(),
                next,
                resize,
                result,
            ) {
            let next = choose|next: DataModel| #[trigger]
                steps[0].outcome(data, resize, Ok(next)) && run(
                    steps.drop_first(),
                    next,
                    resize,
                    result,
                );
            let rest = steps.drop_first();
            steps_apply_in_order(rest, next, resize, result);
            let later = choose|trace: Seq<DataModel>| #[trigger]
                traced(rest, next, resize, trace, result);
            let trace = seq![data] + later;
            assert forall|i: int| 0 <= i < trace.len() - 1 implies (#[trigger] steps[i]).outcome(
                trace[i],
                resize,
                Ok(trace[i + 1]),
            ) by {
                if i > 0 {
                    assert(rest[i - 1] == steps[i]);
                }
            }
            assert(trace.last() == later.last());
            assert(result is Err ==> rest[later.len() - 1] == steps[trace.len() - 1]);
            assert(traced(steps, data, resize, trace, result));
        } else {
            assert(traced(steps, data, resize, seq![data], result));
        }
    }
    if exists|trace: Seq<DataModel>| #[trigger] traced(steps, data, resize, trace, result) {
        let trace = choose|trace: Seq<DataModel>| #[trigger]
            traced(steps, data, resize, trace, result);
        if steps.len() > 0 && trace.len() > 1 {
            let rest = steps.drop_first();
            let later = trace.drop_first();
            assert(steps[0].outcome(trace[0], resize, Ok(trace[1])));
            assert forall|i: int| 0 <= i < later.len() - 1 implies (#[trigger] rest[i]).outcome(
                later[i],
                resize,
                Ok(later[i + 1]),
            ) by {
                assert(rest[i] == steps[i + 1]);
            }
            assert(trace.last() == later.last());
            assert(result is Err ==> rest[later.len() - 1] == steps[trace.len() - 1]);
            assert(traced(rest, trace[1], resize, later, result));
            steps_apply_in_order(rest, trace[1], resize, result);
        }
    }
}

impl Plan {
    /// Whether `result` may come out when the picture is resized.
    pub open spec fn resize_outcome(
        self,
        picture: PictureModel,
        resize: Resampler,
        result: Result<DataModel, ErrorModel>,
    ) -> bool {
        match self.resize {
            Some(step) => step.picture_outcome(picture, resize, result),
            None => result == Ok::<DataModel, ErrorModel>(DataModel::Image(picture)),
        }
    }

    /// The tensor of the picture as it is cropped.
    pub open spec fn tensor(self, picture: PictureModel) -> TensorModel {
        match self.crop {
            Some(size) => if picture.width >= size.0 && picture.height >= size.1 {
                steps::tensor_of(steps::kept(picture, size))
            } else {
                steps::padded(steps::kept(picture, size), size)
            },
            None => steps::tensor_of(picture),
        }
    }

    /// What the arithmetic gives for a tensor.
    pub open spec fn finished(self, tensor: TensorModel) -> Result<DataModel, ErrorModel> {
        let scaled = match self.scale {
            Some(scale) => tensor.followed_by(ArithmeticModel::Rescale { scale }),
            None => tensor,
        };
        match self.normal {
            Some((mean, std)) => steps::normalized(scaled, mean, std),
            None => Ok(DataModel::NdArray(scaled)),
        }
    }

    /// Whether `result` may come out for a picture.
    pub open spec fn outcome(
        self,
        picture: PictureModel,
        resize: Resampler,
        result: Result<DataModel, ErrorModel>,
    ) -> bool {
        ||| exists|resized: PictureModel| #[trigger]
            self.resize_outcome(picture.converted(), resize, Ok(DataModel::Image(resized)))
                && result == self.finished(self.tensor(resized))
        ||| result matches Err(error) && self.resize_outcome(
            picture.converted(),
            resize,
            Err(error),
        )
    }
}

/// Steps can be applied in two parts: what comes out of all of them comes out of
/// the later ones after the earlier ones, or is an error of the earlier ones.
pub proof fn steps_apply_in_parts(
    earlier: Seq<Step>,
    later: Seq<Step>,
    data: DataModel,
    resize: Resampler,
    result: Result<DataModel, ErrorModel>,
)
    requires
        run(earlier + later, data, resize, result),
    ensures
        (exists|between: DataModel| #[trigger]
            run(earlier, data, resize, Ok(between)) && run(later, between, resize, result)) || (
        result is Err && run(earlier, data, resize, result)),
    decreases earlier.len(),
{
    let all = earlier + later;
    if earlier.len() == 0 {
        assert(all =~= later);
        assert(run(earlier, data, resize, Ok(data)));
    } else {
        assert(all[0] == earlier[0]);
        assert(all.drop_first() =~= earlier.drop_first() + later);
        if exists|next: DataModel| #[trigger]
            all[0].outcome(data, resize, Ok(next)) && run(all.drop_first(), next, resize, result) {
            let next = choose|next: DataModel| #[trigger]
                all[0].outcome(data, resize, Ok(next)) && run(
                    all.drop_first(),
                    next,
                    resize,
                    result,
                );
            steps_apply_in_parts(earlier.drop_first(), later, next, resize, result);
            assert(earlier[0].outcome(data, resize, Ok(next)));
            if exists|between: DataModel| #[trigger]
                run(earlier.drop_first(), next, resize, Ok(between)) && run(
                    later,
                    between,
                    resize,
                    result,
                ) {
                let between = choose|between: DataModel| #[trigger]
                    run(earlier.drop_first(), next, resize, Ok(between)) && run(
                        later,
                        between,
                        resize,
                        result,
                    );
                assert(run(earlier, data, resize, Ok(between)));
            }
        }
    }
}

/// What comes out of a single step.
proof fn lemma_single(
    step: Step,
    data: DataModel,
    resize: Resampler,
    result: Result<DataModel, ErrorModel>,
)
    requires
        run(seq![step], data, resize, result),
    ensures
        step.outcome(data, resize, result),
{
    reveal_with_fuel(run, 2);
    let steps = seq![step];
    assert(steps[0] == step);
    assert(steps.drop_first() =~= seq![]);
}

/// What comes out of the steps on the tensor.
proof fn lemma_finished(
    plan: Plan,
    tensor: TensorModel,
    resize: Resampler,
    result: Result<DataModel, ErrorModel>,
)
    requires
        run(plan.on_tensor(), DataModel::NdArray(tensor), resize, result),
    ensures
        result == plan.finished(tensor),
{
    let data = DataModel::NdArray(tensor);
    match (plan.scale, plan.normal) {
        (Some(scale), Some((mean, std))) => {
            let first = seq![Step::Rescale { scale }];
            let second = seq![Step::Normalize { mean, std }];
            assert(plan.on_tensor() =~= first + second);
            steps_apply_in_parts(first, second, data, resize, result);
            if exists|between: DataModel| #[trigger]
                run(first, data, resize, Ok(between)) && run(second, between, resize, result) {
                let between = choose|between: DataModel| #[trigger]
                    run(first, data, resize, Ok(between)) && run(second, between, resize, result);
                lemma_single(first[0], data, resize, Ok(between));
                lemma_single(second[0], between, resize, result);
            } else {
                lemma_single(first[0], data, resize, result);
            }
        },
        (Some(scale), None) => {
            let only = seq![Step::Rescale { scale }];
            assert(plan.on_tensor() =~= only);
            lemma_single(only[0], data, resize, result);
        },
        (None, Some((mean, std))) => {
            let only = seq![Step::Normalize { mean, std }];
            assert(plan.on_tensor() =~= only);
            lemma_single(only[0], data, resize, result);
        },
        (None, None) => {
            assert(plan.on_tensor() =~= seq![]);
        },
    }
}

/// What comes out of the crop and the steps after it.
proof fn lemma_cropped(
    plan: Plan,
    picture: PictureModel,
    resize: Resampler,
    result: Result<DataModel, ErrorModel>,
)
    requires
        run(
            match plan.crop {
                Some(size) => seq![Step::CenterCrop { size }],
                None => seq![],
            } + seq![Step::ToTensor] + plan.on_tensor(),
            DataModel::Image(picture),
            resize,
            result,
        ),
    ensures
        result == plan.finished(plan.tensor(picture)),
{
    let crop = match plan.crop {
        Some(size) => seq![Step::CenterCrop { size }],
        None => seq![],
    };
    let to_tensor = seq![Step::ToTensor];
    let start = DataModel::Image(picture);
    let cropped = match plan.crop {
        Some(size) => if picture.width >= size.0 && picture.height >= size.1 {
            DataModel::Image(steps::kept(picture, size))
        } else {
            DataModel::NdArray(steps::padded(steps::kept(picture, size), size))
        },
        None => start,
    };
    assert(crop + to_tensor + plan.on_tensor() =~= crop + (to_tensor + plan.on_tensor()));
    steps_apply_in_parts(crop, to_tensor + plan.on_tensor(), start, resize, result);
    assert forall|between: Result<DataModel, ErrorModel>| #[trigger]
        run(crop, start, resize, between) implies between == Ok::<DataModel, ErrorModel>(
        cropped,
    ) by {
        if plan.crop is Some {
            lemma_single(crop[0], start, resize, between);
        }
    }
    assert(run(to_tensor + plan.on_tensor(), cropped, resize, result));
    steps_apply_in_parts(to_tensor, plan.on_tensor(), cropped, resize, result);
    assert forall|between: Result<DataModel, ErrorModel>| #[trigger]
        run(to_tensor, cropped, resize, between) implies between == Ok::<DataModel, ErrorModel>(
        DataModel::NdArray(plan.tensor(picture)),
    ) by {
        lemma_single(to_tensor[0], cropped, resize, between);
    }
    lemma_finished(plan, plan.tensor(picture), resize, result);
}

/// What a preprocessor gives for a picture is what its plan says: the picture in
/// red, green and blue is resized, cropped, made a tensor and put through the
/// arithmetic, and nothing but the resizing and the arithmetic can fail.
pub proof fn steps_follow_their_plan(
    plan: Plan,
    picture: PictureModel,
    resize: Resampler,
    result: Result<DataModel, ErrorModel>,
)
    requires
        plan.wf(),
        run(plan.steps(), DataModel::Image(picture), resize, result),
    ensures
        plan.outcome(picture, resize, result),
        result matches Ok(data) ==> data is NdArray,
{
    let convert = seq![Step::ConvertToRgb];
    let resizing = match plan.resize {
        Some(step) => seq![step],
        None => seq![],
    };
    let crop = match plan.crop {
        Some(size) => seq![Step::CenterCrop { size }],
        None => seq![],
    };
    let last = crop + seq![Step::ToTensor] + plan.on_tensor();
    let start = DataModel::Image(picture);
    let converted = DataModel::Image(picture.converted());
    assert(plan.steps() =~= convert + (resizing + last));
    steps_apply_in_parts(convert, resizing + last, start, resize, result);
    assert forall|between: Result<DataModel, ErrorModel>| #[trigger]
        run(convert, start, resize, between) implies between == Ok::<DataModel, ErrorModel>(
        converted,
    ) by {
        lemma_single(convert[0], start, resize, between);
    }
    steps_apply_in_parts(resizing, last, converted, resize, result);
    assert forall|between: Result<DataModel, ErrorModel>| #[trigger]
        run(resizing, converted, resize, between) implies plan.resize_outcome(
        picture.converted(),
        resize,
        between,
    ) by {
        if plan.resize is Some {
            lemma_single(resizing[0], converted, resize, between);
        }
    }
    if exists|between: DataModel| #[trigger]
        run(resizing, converted, resize, Ok(between)) && run(last, between, resize, result) {
        let between = choose|between: DataModel| #[trigger]
            run(resizing, converted, resize, Ok(between)) && run(last, between, resize, result);
        assert(plan.resize_outcome(picture.converted(), resize, Ok(between)));
        let resized = between->Image_0;
        assert(between == DataModel::Image(resized));
        lemma_cropped(plan, resized, resize, result);
    }
}

/// What a preprocessor gives for a picture: its steps are applied to the picture one after
/// another, and the tensor that comes out of the last one is the result, or the first error.
/// Where a picture comes out in place of a tensor, that is an error.
pub proof fn preprocessing_applies_the_steps(
    compose: Compose,
    image: Picture,
    result: Result<Tensor, Error>,
) -> (trace: Seq<DataModel>)
    requires
        call_ensures(Compose::preprocess_image, (&compose, image), result),
    ensures
        ({
            let gives = transform::resampler(default_resize);
            let steps = compose.steps();
            &&& 1 <= trace.len() <= steps.len() + 1
            &&& trace[0] == DataModel::Image(image@)
            &&& forall|i: int|
                0 <= i < trace.len() - 1 ==> (#[trigger] steps[i]).outcome(
                    trace[i],
                    gives,
                    Ok(trace[i + 1]),
                )
            &&& match result {
                Ok(tensor) => trace.len() == steps.len() + 1 && trace.last() == DataModel::NdArray(
                    tensor@,
                ),
                Err(error) => {
                    ||| trace.len() == steps.len() + 1 && trace.last() is Image && error@
                        == ErrorModel::ImageTransform("TransformData convert error"@)
                    ||| trace.len() <= steps.len() && steps[trace.len() - 1].outcome(
                        trace.last(),
                        gives,
                        Err(error@),
                    )
                },
            }
        }),
{
    let gives = transform::resampler(default_resize);
    let start = DataModel::Image(image@);
    assert(compose.gives_for(image@, gives, tensor_model(result)));
    let end = choose|end: Result<DataModel, ErrorModel>| #[trigger]
        run(compose.steps(), start, gives, end) && tensor_model(result) == wanted(end);
    steps_apply_in_order(compose.steps(), start, gives, end);
    let trace = choose|trace: Seq<DataModel>| #[trigger]
        traced(compose.steps(), start, gives, trace, end);
    assert(traced(compose.steps(), start, gives, trace, end));
    trace
}

}

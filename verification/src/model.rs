//! The models that can be run, how intent selects one, and their tunables.

use vstd::prelude::*;

verus! {

/// Tunables shared by every model's run. A model reads only those it uses.
#[derive(Clone, Debug)]
pub struct UpscaleOptions {
    /// Sampler steps.
    pub steps: usize,
    /// Noise level of the low-resolution conditioning, `0..=350`.
    pub noise_level: i64,
    /// Tile side in low-resolution pixels.
    pub tile: usize,
    /// Overlap of neighbouring tiles in pixels.
    pub overlap: usize,
    /// Tiles per model forward.
    pub batch: usize,
}

impl Default for UpscaleOptions {
    fn default() -> (options: Self)
        ensures
            options.steps == 20,
            options.noise_level == 20,
            options.tile == 128,
            options.overlap == 16,
            options.batch == 1,
    {
        UpscaleOptions { steps: 20, noise_level: 20, tile: 128, overlap: 16, batch: 1 }
    }
}

/// Which model to load.
#[derive(Clone, Copy, Debug, PartialEq, Eq, Structural)]
pub enum ModelId {
    /// The Stable Diffusion x4 latent-diffusion upscaler.
    Sdx4,
    /// The VOSR flow-matching latent upscaler.
    Vosr,
    /// The TVT one-step latent upscaler.
    Tvt,
}

impl ModelId {
    /// The sampler steps used where none are asked for.
    pub fn default_steps(self) -> (steps: usize)
        ensures
            steps == match self {
                ModelId::Sdx4 => 20,
                ModelId::Vosr => 4usize,
                ModelId::Tvt => 1,
            },
    {
        match self {
            ModelId::Sdx4 => 20,
            ModelId::Vosr => 4,
            ModelId::Tvt => 1,
        }
    }

    /// The tiles per model forward used where no number is asked for.
    pub fn default_batch(self) -> (batch: usize)
        ensures
            batch == if self is Vosr { 8usize } else { 1usize },
    {
        match self {
            ModelId::Vosr => 8,
            ModelId::Sdx4 | ModelId::Tvt => 1,
        }
    }
}

impl ModelId {
    /// The name under which the model is built.
    pub open spec fn feature(self) -> Seq<char> {
        match self {
            ModelId::Sdx4 => "sdx4"@,
            ModelId::Vosr => "vosr"@,
            ModelId::Tvt => "tvt"@,
        }
    }

    /// What is said where the program was built without the model.
    pub fn unavailable(self) -> (text: String)
        ensures
            text@ == "built without the "@ + self.feature()
                + " model (rebuild with --features model-"@ + self.feature() + ")"@,
    {
        let name: &str = match self {
            ModelId::Sdx4 => "sdx4",
            ModelId::Vosr => "vosr",
            ModelId::Tvt => "tvt",
        };
        let mut text: String = "built without the ".to_owned();
        text.append(name);
        text.append(" model (rebuild with --features model-");
        text.append(name);
        text.append(")");
        text
    }
}

/// What the picture is, as a reason to choose a model.
#[derive(Clone, Copy, Debug, PartialEq, Eq, Structural)]
pub enum Preset {
    /// Documents: text, line art, screenshots.
    Document,
    /// Photographs and other natural images.
    Image,
}

impl Preset {
    /// The model this preset selects.
    pub fn model(self) -> (id: ModelId)
        ensures
            id is Sdx4,
    {
        match self {
            Preset::Document | Preset::Image => ModelId::Sdx4,
        }
    }
}

} // verus!

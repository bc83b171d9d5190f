//! The parameters of the wave spectrum and the two passes that make the
//! frequency-domain field: the initial spectrum, computed once, and its
//! evolution to the time of a frame.

use vstd::prelude::*;
use crate::error::ConfigurationError;
use crate::grid::GridSize;
use crate::noise::RandomField;
use crate::scalar::{Scalar, Vec2, ONE_BITS};

verus! {

/// The amplitude scale that a pipeline has unless told otherwise: four.
pub const DEFAULT_AMPLITUDE: u32 = 0x4080_0000;

/// The wind intensity that a pipeline has unless told otherwise: forty.
pub const DEFAULT_INTENSITY: u32 = 0x4220_0000;

/// The capillary suppression length that a pipeline has unless told
/// otherwise: one half.
pub const DEFAULT_SUPPRESSION: u32 = 0x3f00_0000;

/// Each component of the wind direction that a pipeline has unless told
/// otherwise: one.
pub const DEFAULT_DIRECTION: u32 = ONE_BITS;

/// The length, in world units, that a grid spans unless told otherwise.
pub const DEFAULT_SCALE: i32 = 1000;

/// The grid size that a pipeline has unless told otherwise.
pub const DEFAULT_GRID: u32 = 0x100;

/// The configuration of the Phillips spectrum.
#[derive(Clone, Copy, Debug, PartialEq, Eq, Structural)]
pub struct SpectrumParameters {
    /// The amplitude scale of the spectrum.
    pub amplitude: Scalar,
    /// The wind speed.
    pub intensity: Scalar,
    /// The wind direction; it need not have length one.
    pub direction: Vec2,
    /// The length below which capillary waves are suppressed.
    pub l: Scalar,
    /// The length, in world units, that the grid spans.
    pub scale: i32,
}

impl SpectrumParameters {
    /// The defaults: amplitude four, wind intensity forty along
    /// the diagonal, suppression length one half, a span of a thousand units.
    pub open spec fn spec_default() -> SpectrumParameters {
        SpectrumParameters {
            amplitude: Scalar { bits: DEFAULT_AMPLITUDE },
            intensity: Scalar { bits: DEFAULT_INTENSITY },
            direction: Vec2 { x: Scalar { bits: DEFAULT_DIRECTION }, y: Scalar { bits: DEFAULT_DIRECTION } },
            l: Scalar { bits: DEFAULT_SUPPRESSION },
            scale: DEFAULT_SCALE,
        }
    }

    /// The first fault of the parameters, if they have one: a wind
    /// intensity that is not greater than zero, else a suppression length
    /// that is not greater than zero.
    pub open spec fn fault(self) -> Option<ConfigurationError> {
        if !self.intensity.spec_is_positive() {
            Some(ConfigurationError::WindNotPositive)
        } else if !self.l.spec_is_positive() {
            Some(ConfigurationError::SuppressionNotPositive)
        } else {
            None
        }
    }

    /// Accepts the parameters if and only if they have no fault, and
    /// reports the first fault otherwise.
    pub fn validate(&self) -> (r: Result<(), ConfigurationError>)
        ensures
            match self.fault() {
                Some(e) => r == Err::<(), ConfigurationError>(e),
                None => r is Ok,
            },
    {
        if !self.intensity.is_positive() {
            Err(ConfigurationError::WindNotPositive)
        } else if !self.l.is_positive() {
            Err(ConfigurationError::SuppressionNotPositive)
        } else {
            Ok(())
        }
    }
}

impl Default for SpectrumParameters {
    fn default() -> (p: SpectrumParameters)
        ensures
            p == SpectrumParameters::spec_default(),
    {
        SpectrumParameters {
            amplitude: Scalar { bits: DEFAULT_AMPLITUDE },
            intensity: Scalar { bits: DEFAULT_INTENSITY },
            direction: Vec2 { x: Scalar { bits: DEFAULT_DIRECTION }, y: Scalar { bits: DEFAULT_DIRECTION } },
            l: Scalar { bits: DEFAULT_SUPPRESSION },
            scale: DEFAULT_SCALE,
        }
    }
}

/// The defaults have no fault.
pub proof fn lemma_default_is_sound()
    ensures
        SpectrumParameters::spec_default().fault() is None,
{
}

/// What the pass that computes the initial spectrum is given besides the
/// seed field.
#[derive(Clone, Copy, Debug, PartialEq, Eq, Structural)]
pub struct H0kUniforms {
    pub n: i32,
    pub scale: i32,
    pub amplitude: Scalar,
    pub intensity: Scalar,
    pub direction: Vec2,
    pub l: Scalar,
}

/// The initial spectrum: a seed field and the parameters of the spectrum.
/// It does not depend on time and is computed once.
pub struct H0k {
    input_texture: RandomField,
    parameters: SpectrumParameters,
}

impl H0k {
    /// The seed field.
    pub closed spec fn spec_input_texture(self) -> RandomField {
        self.input_texture
    }

    /// The parameters of the spectrum.
    pub closed spec fn spec_parameters(self) -> SpectrumParameters {
        self.parameters
    }

    /// The invariant of the type: the seed field is whole.
    #[verifier::type_invariant]
    pub open spec fn valid(self) -> bool {
        self.spec_input_texture().valid()
    }

    /// The grid size of the spectrum: that of its seed field.
    pub open spec fn spec_size(self) -> GridSize {
        self.spec_input_texture().spec_size()
    }

    /// What the pass is given for this spectrum.
    pub open spec fn uniforms(self) -> H0kUniforms {
        H0kUniforms {
            n: self.spec_size().spec_n() as i32,
            scale: self.spec_parameters().scale,
            amplitude: self.spec_parameters().amplitude,
            intensity: self.spec_parameters().intensity,
            direction: self.spec_parameters().direction,
            l: self.spec_parameters().l,
        }
    }

    /// An initial spectrum with the default parameters and a fresh seed field.
    pub fn new(size: GridSize) -> (h0k: H0k)
        ensures
            h0k.spec_size() == size,
            h0k.spec_parameters() == SpectrumParameters::spec_default(),
            h0k.valid(),
    {
        H0k { input_texture: RandomField::generate(size), parameters: SpectrumParameters::default() }
    }

    /// An initial spectrum with the given seed field and parameters.
    pub fn with_field(input_texture: RandomField, parameters: SpectrumParameters) -> (h0k: H0k)
        ensures
            h0k.spec_input_texture() == input_texture,
            h0k.spec_parameters() == parameters,
            h0k.valid(),
    {
        proof {
            use_type_invariant(&input_texture);
        }
        H0k { input_texture, parameters }
    }

    /// The seed field.
    pub fn input_texture(&self) -> (field: &RandomField)
        ensures
            *field == self.spec_input_texture(),
            field.valid(),
    {
        proof {
            use_type_invariant(self);
        }
        &self.input_texture
    }

    /// The parameters of the spectrum.
    pub fn parameters(&self) -> (p: SpectrumParameters)
        ensures
            p == self.spec_parameters(),
    {
        self.parameters
    }

    /// What the pass that computes the initial spectrum is given: the grid
    /// size and the parameters, unchanged.
    pub fn render(&self) -> (u: H0kUniforms)
        ensures
            u == self.uniforms(),
            u.n == self.spec_size().spec_n(),
    {
        let n = self.input_texture().size().n();
        H0kUniforms {
            n: n as i32,
            scale: self.parameters.scale,
            amplitude: self.parameters.amplitude,
            intensity: self.parameters.intensity,
            direction: self.parameters.direction,
            l: self.parameters.l,
        }
    }
}

/// What the pass that advances the spectrum in time is given besides the
/// initial spectrum.
#[derive(Clone, Copy, Debug, PartialEq, Eq, Structural)]
pub struct HktUniforms {
    pub n: i32,
    pub time: Scalar,
}

/// The evolution of the spectrum in time. It keeps nothing from one frame
/// to the next.
#[derive(Clone, Copy, Debug)]
pub struct Hkt {
    size: GridSize,
}

impl Hkt {
    /// The grid size of the field.
    pub closed spec fn spec_size(self) -> GridSize {
        self.size
    }

    /// The invariant of the type: the grid size is sound.
    #[verifier::type_invariant]
    pub open spec fn valid(self) -> bool {
        self.spec_size().valid()
    }

    /// What the pass is given at `time`.
    pub open spec fn uniforms(self, time: Scalar) -> HktUniforms {
        HktUniforms { n: self.spec_size().spec_n() as i32, time }
    }

    /// The evolution of a spectrum on a grid of the given size.
    pub fn new(size: GridSize) -> (hkt: Hkt)
        ensures
            hkt.spec_size() == size,
    {
        let n = size.n();
        Hkt { size }
    }

    /// What the pass that advances the spectrum is given for the frame at
    /// `time`, in seconds: the grid size and the time, unchanged.
    pub fn render(&self, time: Scalar) -> (u: HktUniforms)
        ensures
            u == self.uniforms(time),
            u.n == self.spec_size().spec_n(),
    {
        proof {
            use_type_invariant(self);
        }
        let n = self.size.n();
        HktUniforms { n: n as i32, time }
    }
}

} // verus!

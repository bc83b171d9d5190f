//! The pipeline as a whole: what is set up once, what is planned for every
//! frame, and what is accepted as a frame's result.

use vstd::prelude::*;
use crate::error::{ConfigurationError, NumericAnomaly};
use crate::fft::{Fft, Pass, schedule};
use crate::grid::{GridSize, is_power_of_two, MAX_GRID};
use crate::mesh::{strip_indices, is_mesh};
use crate::noise::{RandomField, lemma_field_len_fits};
use crate::scalar::Scalar;
use crate::spectrum::{H0k, Hkt, HktUniforms, SpectrumParameters};

verus! {

/// The first fault of a configuration, if it has one: a grid size that is
/// not a power of two, else one beyond `MAX_GRID`, else the first fault of
/// the parameters.
pub open spec fn configuration_fault(n: u32, parameters: SpectrumParameters) -> Option<
    ConfigurationError,
> {
    if !is_power_of_two(n as nat) {
        Some(ConfigurationError::GridNotPowerOfTwo)
    } else if n > MAX_GRID {
        Some(ConfigurationError::GridTooLarge)
    } else {
        parameters.fault()
    }
}

/// A pipeline: the initial spectrum, its evolution, the inverse transform
/// and the surface mesh, all for one grid size, and the heights of the last
/// frame that was accepted.
///
/// The heights are kept in two buffers. A frame is written to the hidden
/// one while the other is shown, and the two change places only when the
/// frame is accepted: a frame that fails leaves what is shown as it was.
pub struct Ocean {
    h0k: H0k,
    hkt: Hkt,
    fft: Fft,
    indices: Vec<u32>,
    heights: Option<HeightField>,
    shown: usize,
}

impl Ocean {
    /// The initial spectrum.
    pub closed spec fn spec_h0k(self) -> H0k {
        self.h0k
    }

    /// The evolution in time.
    pub closed spec fn spec_hkt(self) -> Hkt {
        self.hkt
    }

    /// The inverse transform.
    pub closed spec fn spec_fft(self) -> Fft {
        self.fft
    }

    /// The index list of the surface mesh.
    pub closed spec fn spec_indices(self) -> Seq<u32> {
        self.indices@
    }

    /// The heights of the last frame that was accepted, if there was one.
    pub closed spec fn spec_heights(self) -> Option<HeightField> {
        self.heights
    }

    /// Which of the two height buffers is shown: 0 or 1.
    pub closed spec fn spec_shown(self) -> nat {
        self.shown as nat
    }

    /// The grid size of the pipeline.
    pub open spec fn spec_size(self) -> GridSize {
        self.spec_fft().spec_size()
    }

    /// The parts of the pipeline that are set up once and never change.
    pub open spec fn same_setup(self, other: Ocean) -> bool {
        &&& self.spec_h0k() == other.spec_h0k()
        &&& self.spec_hkt() == other.spec_hkt()
        &&& self.spec_fft() == other.spec_fft()
        &&& self.spec_indices() == other.spec_indices()
    }

    /// The invariant of the type: the parts are sound and share one grid
    /// size, the parameters have no fault, and the mesh has one quad for
    /// each cell of the grid.
    #[verifier::type_invariant]
    pub open spec fn valid(self) -> bool {
        &&& self.spec_h0k().valid()
        &&& self.spec_hkt().valid()
        &&& self.spec_fft().valid()
        &&& self.spec_h0k().spec_size() == self.spec_size()
        &&& self.spec_hkt().spec_size() == self.spec_size()
        &&& self.spec_h0k().spec_parameters().fault() is None
        &&& is_mesh(self.spec_indices(), self.spec_size().spec_n())
        &&& self.spec_shown() < 2
        &&& self.spec_heights() matches Some(field) ==> field.valid() && field.spec_size()
            == self.spec_size()
    }

    /// Sets a pipeline up for a grid of `n` cells a side, with a fresh seed
    /// field. Fails if and only if the configuration has a fault, with the
    /// first one.
    pub fn new(n: u32, parameters: SpectrumParameters) -> (r: Result<Ocean, ConfigurationError>)
        ensures
            match configuration_fault(n, parameters) {
                Some(e) => r matches Err(f) && f == e,
                None => r matches Ok(ocean) && ocean.valid() && ocean.spec_size().spec_n() == n
                    && ocean.spec_h0k().spec_parameters() == parameters && ocean.spec_heights()
                    is None && ocean.spec_shown() == 0,
            },
    {
        match GridSize::new(n) {
            Err(e) => Err(e),
            Ok(size) => match parameters.validate() {
                Err(e) => Err(e),
                Ok(()) => Ok(Self::assemble(RandomField::generate(size), parameters)),
            },
        }
    }

    /// Sets a pipeline up as `new` does, with the seed field that a
    /// generator started from `seed` gives.
    pub fn with_seed(n: u32, parameters: SpectrumParameters, seed: u64) -> (r: Result<
        Ocean,
        ConfigurationError,
    >)
        ensures
            match configuration_fault(n, parameters) {
                Some(e) => r matches Err(f) && f == e,
                None => r matches Ok(ocean) && ocean.valid() && ocean.spec_size().spec_n() == n
                    && ocean.spec_h0k().spec_parameters() == parameters && ocean.spec_heights()
                    is None && ocean.spec_shown() == 0,
            },
    {
        match GridSize::new(n) {
            Err(e) => Err(e),
            Ok(size) => match parameters.validate() {
                Err(e) => Err(e),
                Ok(()) => Ok(Self::assemble(RandomField::generate_seeded(size, seed), parameters)),
            },
        }
    }

    /// Sets a pipeline up on a given seed field. Fails if and only if the
    /// parameters have a fault, with the first one.
    pub fn with_field(field: RandomField, parameters: SpectrumParameters) -> (r: Result<
        Ocean,
        ConfigurationError,
    >)
        ensures
            match parameters.fault() {
                Some(e) => r matches Err(f) && f == e,
                None => r matches Ok(ocean) && ocean.valid() && ocean.spec_size()
                    == field.spec_size() && ocean.spec_h0k().spec_parameters() == parameters
                    && ocean.spec_h0k().spec_input_texture() == field && ocean.spec_heights()
                    is None && ocean.spec_shown() == 0,
            },
    {
        match parameters.validate() {
            Err(e) => Err(e),
            Ok(()) => Ok(Self::assemble(field, parameters)),
        }
    }

    fn assemble(field: RandomField, parameters: SpectrumParameters) -> (ocean: Ocean)
        requires
            parameters.fault() is None,
        ensures
            ocean.valid(),
            ocean.spec_size() == field.spec_size(),
            ocean.spec_h0k().spec_parameters() == parameters,
            ocean.spec_h0k().spec_input_texture() == field,
            ocean.spec_heights() is None,
            ocean.spec_shown() == 0,
    {
        let size = field.size();
        let n = size.n();
        let h0k = H0k::with_field(field, parameters);
        let hkt = Hkt::new(size);
        let fft = Fft::new(size);
        let indices = strip_indices(n);
        Ocean { h0k, hkt, fft, indices, heights: None, shown: 0 }
    }

    /// The initial spectrum.
    pub fn h0k(&self) -> (h0k: &H0k)
        ensures
            *h0k == self.spec_h0k(),
            self.valid(),
    {
        proof {
            use_type_invariant(self);
        }
        &self.h0k
    }

    /// The evolution in time.
    pub fn hkt(&self) -> (hkt: &Hkt)
        ensures
            *hkt == self.spec_hkt(),
            self.valid(),
    {
        proof {
            use_type_invariant(self);
        }
        &self.hkt
    }

    /// The inverse transform.
    pub fn fft(&self) -> (fft: &Fft)
        ensures
            *fft == self.spec_fft(),
            self.valid(),
    {
        proof {
            use_type_invariant(self);
        }
        &self.fft
    }

    /// The grid size of the pipeline.
    pub fn size(&self) -> (size: GridSize)
        ensures
            size == self.spec_size(),
            self.valid(),
    {
        proof {
            use_type_invariant(self);
        }
        self.fft.table().size()
    }

    /// The index list of the surface mesh.
    pub fn indices(&self) -> (indices: &Vec<u32>)
        ensures
            indices@ == self.spec_indices(),
            self.valid(),
    {
        proof {
            use_type_invariant(self);
        }
        &self.indices
    }

    /// The heights of the last frame that was accepted, if there was one.
    pub fn heights(&self) -> (heights: Option<&HeightField>)
        ensures
            heights.is_some() == self.spec_heights().is_some(),
            heights matches Some(field) ==> Some(*field) == self.spec_heights() && field.valid(),
            self.valid(),
    {
        proof {
            use_type_invariant(self);
        }
        self.heights.as_ref()
    }

    /// The height buffer that is shown: 0 or 1.
    pub fn shown(&self) -> (shown: usize)
        ensures
            shown == self.spec_shown(),
            shown < 2,
    {
        proof {
            use_type_invariant(self);
        }
        self.shown
    }

    /// The height buffer that the next frame is written to: the one that
    /// is not shown.
    pub fn hidden(&self) -> (hidden: usize)
        ensures
            hidden == 1 - self.spec_shown(),
    {
        proof {
            use_type_invariant(self);
        }
        1 - self.shown
    }

    /// Ends a frame with the heights that its passes wrote to the hidden
    /// buffer. If they are a height field, they become the heights of the
    /// pipeline and the hidden buffer is shown from now on. If they are
    /// not, the anomaly is reported and the pipeline stays as it was: what
    /// was shown before is still shown and still valid.
    pub fn complete(&mut self, heights: Vec<u32>) -> (r: Result<(), NumericAnomaly>)
        ensures
            final(self).valid(),
            final(self).same_setup(*old(self)),
            match r {
                Ok(()) => {
                    &&& heights@.len() == old(self).spec_size().spec_n() * old(self).spec_size().spec_n()
                    &&& all_finite(heights@)
                    &&& final(self).spec_heights() matches Some(field) && field@ == heights@
                    &&& final(self).spec_shown() == 1 - old(self).spec_shown()
                },
                Err(NumericAnomaly::WrongLength) => {
                    &&& heights@.len() != old(self).spec_size().spec_n() * old(self).spec_size().spec_n()
                    &&& *final(self) == *old(self)
                },
                Err(NumericAnomaly::NotFinite { index }) => {
                    &&& heights@.len() == old(self).spec_size().spec_n() * old(self).spec_size().spec_n()
                    &&& is_first_anomaly(heights@, index as int)
                    &&& *final(self) == *old(self)
                },
            },
    {
        proof {
            use_type_invariant(&*self);
        }
        let size = self.fft.table().size();
        match HeightField::new(size, heights) {
            Ok(field) => {
                self.heights = Some(field);
                self.shown = 1 - self.shown;
                Ok(())
            },
            Err(e) => Err(e),
        }
    }

    /// What a frame at `time` consists of: the evolution of the spectrum
    /// to that time, then the passes of the inverse transform. It depends
    /// on the pipeline and the time alone.
    pub open spec fn frame_at(self, time: Scalar) -> (HktUniforms, Seq<Pass>) {
        (self.spec_hkt().uniforms(time), schedule(self.spec_size().spec_bits()))
    }

    /// Plans the frame at `time`, in seconds. The pipeline is not changed.
    pub fn simulate(&self, time: Scalar) -> (frame: OceanFrame<'_>)
        ensures
            *frame.spec_ocean() == *self,
            (frame.spec_evolve(), frame.spec_passes()) == self.frame_at(time),
    {
        proof {
            use_type_invariant(self);
        }
        let evolve = self.hkt.render(time);
        let passes = self.fft.render();
        OceanFrame { ocean: self, evolve, passes }
    }
}

/// Planning a frame twice for the same time gives the same frame: the plan
/// is a function of the pipeline and the time, and planning changes neither.
pub proof fn lemma_same_time_same_frame(ocean: Ocean, first: Scalar, second: Scalar)
    requires
        first == second,
    ensures
        ocean.frame_at(first) == ocean.frame_at(second),
{
}

/// The position of a copy of the surface, in units of its side length.
#[derive(Clone, Copy, Debug, PartialEq, Eq, Structural)]
pub struct Offset {
    pub x: i32,
    pub y: i32,
}

/// The copies of the surface that are drawn: two by two, around the origin.
pub open spec fn tiles() -> Seq<Offset> {
    seq![
        Offset { x: -1i32, y: -1i32 },
        Offset { x: -1i32, y: 0i32 },
        Offset { x: 0i32, y: -1i32 },
        Offset { x: 0i32, y: 0i32 },
    ]
}

/// One planned frame of a pipeline.
pub struct OceanFrame<'a> {
    ocean: &'a Ocean,
    evolve: HktUniforms,
    passes: Vec<Pass>,
}

impl<'a> OceanFrame<'a> {
    /// The pipeline that the frame belongs to.
    pub closed spec fn spec_ocean(self) -> &'a Ocean {
        self.ocean
    }

    /// What the pass that advances the spectrum is given.
    pub closed spec fn spec_evolve(self) -> HktUniforms {
        self.evolve
    }

    /// The passes of the inverse transform.
    pub closed spec fn spec_passes(self) -> Seq<Pass> {
        self.passes@
    }

    /// The pipeline that the frame belongs to.
    pub fn ocean(&self) -> (ocean: &'a Ocean)
        ensures
            ocean == self.spec_ocean(),
    {
        self.ocean
    }

    /// What the pass that advances the spectrum is given.
    pub fn evolve(&self) -> (evolve: HktUniforms)
        ensures
            evolve == self.spec_evolve(),
    {
        self.evolve
    }

    /// The passes of the inverse transform, in the order in which they run.
    pub fn passes(&self) -> (passes: &Vec<Pass>)
        ensures
            passes@ == self.spec_passes(),
    {
        &self.passes
    }

    /// Where the surface is drawn for this frame: the offsets of its copies,
    /// in the order in which they are drawn.
    pub fn render(&self) -> (offsets: Vec<Offset>)
        ensures
            offsets@ == tiles(),
    {
        let mut offsets: Vec<Offset> = Vec::new();
        let mut x: i32 = -1;
        while x < 1
            invariant
                -1 <= x <= 1,
                offsets@ == tiles().subrange(0, 2 * (x + 1)),
            decreases 1 - x,
        {
            let mut y: i32 = -1;
            while y < 1
                invariant
                    -1 <= x < 1,
                    -1 <= y <= 1,
                    offsets@ == tiles().subrange(0, 2 * (x + 1) + (y + 1)),
                decreases 1 - y,
            {
                offsets.push(Offset { x, y });
                y = y + 1;
            }
            x = x + 1;
        }
        proof {
            assert(tiles().subrange(0, 4) =~= tiles());
        }
        offsets
    }
}

/// Whether the value with the bit pattern `bits` is a number.
pub open spec fn finite(bits: u32) -> bool {
    (Scalar { bits }).spec_is_finite()
}

/// Whether every value of `values` is a number.
pub open spec fn all_finite(values: Seq<u32>) -> bool {
    forall|i: int| 0 <= i < values.len() ==> finite(#[trigger] values[i])
}

/// Whether `index` is the first position of `values` that holds a NaN or
/// an infinity.
pub open spec fn is_first_anomaly(values: Seq<u32>, index: int) -> bool {
    &&& 0 <= index < values.len()
    &&& !finite(values[index])
    &&& forall|j: int| 0 <= j < index ==> finite(#[trigger] values[j])
}

/// A height field: one number for each cell of the grid, row after row.
pub struct HeightField {
    size: GridSize,
    heights: Vec<u32>,
}

impl View for HeightField {
    type V = Seq<u32>;

    closed spec fn view(&self) -> Seq<u32> {
        self.heights@
    }
}

impl HeightField {
    /// The grid that the field covers.
    pub closed spec fn spec_size(self) -> GridSize {
        self.size
    }

    /// The invariant of the type: one value for each cell, each a number.
    #[verifier::type_invariant]
    pub open spec fn valid(self) -> bool {
        &&& self.spec_size().valid()
        &&& self@.len() == self.spec_size().spec_n() * self.spec_size().spec_n()
        &&& all_finite(self@)
    }

    /// Accepts what a step produced as a height field. Fails if the number
    /// of values is not that of the grid's cells, and else if a value
    /// is a NaN or an infinity, with the position of the first such value.
    pub fn new(size: GridSize, heights: Vec<u32>) -> (r: Result<HeightField, NumericAnomaly>)
        ensures
            match r {
                Ok(field) => {
                    &&& heights@.len() == size.spec_n() * size.spec_n()
                    &&& all_finite(heights@)
                    &&& field.valid()
                    &&& field.spec_size() == size
                    &&& field@ == heights@
                },
                Err(NumericAnomaly::WrongLength) => heights@.len() != size.spec_n() * size.spec_n(),
                Err(NumericAnomaly::NotFinite { index }) => {
                    &&& heights@.len() == size.spec_n() * size.spec_n()
                    &&& is_first_anomaly(heights@, index as int)
                },
            },
    {
        let n = size.n();
        proof {
            lemma_field_len_fits(n as nat);
        }
        if heights.len() != (n as usize) * (n as usize) {
            return Err(NumericAnomaly::WrongLength);
        }
        let mut i: usize = 0;
        while i < heights.len()
            invariant
                i <= heights@.len(),
                heights@.len() == size.spec_n() * size.spec_n(),
                forall|j: int| 0 <= j < i ==> finite(#[trigger] heights@[j]),
            decreases heights@.len() - i,
        {
            if !Scalar::from_bits(heights[i]).is_finite() {
                return Err(NumericAnomaly::NotFinite { index: i });
            }
            i = i + 1;
        }
        Ok(HeightField { size, heights })
    }

    /// The grid that the field covers.
    pub fn size(&self) -> (size: GridSize)
        ensures
            size == self.spec_size(),
            self.valid(),
    {
        proof {
            use_type_invariant(self);
        }
        self.size
    }

    /// All heights, row after row.
    pub fn heights(&self) -> (heights: &Vec<u32>)
        ensures
            heights@ == self@,
            self.valid(),
    {
        proof {
            use_type_invariant(self);
        }
        &self.heights
    }
}

} // verus!

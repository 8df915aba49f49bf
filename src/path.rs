use vstd::prelude::*;

verus! {

/// How direct lighting is estimated at each diffuse bounce.
#[derive(Clone, Copy, Debug, PartialEq, Eq, Structural)]
pub enum NextEventEstimation {
    /// No light sampling: emission is only found by the paths themselves.
    Off,
    /// Light sampling and BSDF sampling, combined by the power heuristic.
    MultipleImportanceSampling,
    /// Light sampling alone; emission met by a diffuse bounce is not added.
    DirectLightSampling,
}

/// The code a mode is stored under in the per-render configuration.
pub open spec fn nee_code(mode: NextEventEstimation) -> u32 {
    match mode {
        NextEventEstimation::Off => 0,
        NextEventEstimation::MultipleImportanceSampling => 1,
        NextEventEstimation::DirectLightSampling => 2,
    }
}

impl NextEventEstimation {
    pub fn to_u32(self) -> (r: u32)
        ensures
            r == nee_code(self),
    {
        match self {
            NextEventEstimation::Off => 0,
            NextEventEstimation::MultipleImportanceSampling => 1,
            NextEventEstimation::DirectLightSampling => 2,
        }
    }

    /// Reads a stored code; an unknown code means no light sampling.
    pub fn from_u32(value: u32) -> (r: Self)
        ensures
            value <= 2 ==> nee_code(r) == value,
            value > 2 ==> r == NextEventEstimation::Off,
    {
        match value {
            0 => NextEventEstimation::Off,
            1 => NextEventEstimation::MultipleImportanceSampling,
            2 => NextEventEstimation::DirectLightSampling,
            _ => NextEventEstimation::Off,
        }
    }

    pub fn uses_mis(&self) -> (r: bool)
        ensures
            r == (*self == NextEventEstimation::MultipleImportanceSampling),
    {
        match self {
            NextEventEstimation::MultipleImportanceSampling => true,
            _ => false,
        }
    }

    pub fn uses_nee(&self) -> (r: bool)
        ensures
            r == (*self != NextEventEstimation::Off),
    {
        match self {
            NextEventEstimation::Off => false,
            _ => true,
        }
    }

    /// Short name shown to the user.
    pub fn label(&self) -> (r: &'static str)
        ensures
            *self == NextEventEstimation::Off ==> r@ == "None"@,
            *self == NextEventEstimation::MultipleImportanceSampling ==> r@ == "MIS"@,
            *self == NextEventEstimation::DirectLightSampling ==> r@ == "Direct only"@,
    {
        match self {
            NextEventEstimation::Off => "None",
            NextEventEstimation::MultipleImportanceSampling => "MIS",
            NextEventEstimation::DirectLightSampling => "Direct only",
        }
    }
}

/// The lobe a BSDF sample was drawn from.
#[derive(Clone, Copy, Debug, PartialEq, Eq, Structural)]
pub enum LobeType {
    DiffuseReflection,
    SpecularReflection,
    DiffuseTransmission,
    SpecularTransmission,
}

impl Default for LobeType {
    /// A path that has not bounced yet counts as diffuse.
    fn default() -> (r: Self)
        ensures
            r == LobeType::DiffuseReflection,
    {
        LobeType::DiffuseReflection
    }
}

/// What a path does when it hits an emissive triangle. Every response ends
/// the path: emissive surfaces do not scatter.
#[derive(Clone, Copy, Debug, PartialEq, Eq, Structural)]
pub enum EmissiveResponse {
    /// The back of a single-sided emitter: nothing is added.
    Absorb,
    /// Add the emission, weighted by the path throughput.
    AddEmission,
    /// Add the BSDF-sampled half of the multiple importance sampling
    /// estimate, recorded when the previous bounce sampled the lights.
    AddMisContribution,
    /// Add nothing: light sampling at the previous bounce already
    /// accounted for this emission.
    EndSilently,
}

/// Whether a response adds radiance to the pixel.
pub open spec fn adds_radiance(r: EmissiveResponse) -> bool {
    r == EmissiveResponse::AddEmission || r == EmissiveResponse::AddMisContribution
}

/// What a path does on hitting an emissive triangle at `bounce`, the
/// previous bounce having sampled `last_lobe`: the back of an emitter adds
/// nothing; without light sampling, on the camera ray and after a specular
/// bounce the emission is added; after a diffuse bounce it is added through
/// the multiple importance sampling weight, or, with light sampling alone,
/// not at all.
pub open spec fn emissive_response(
    nee: NextEventEstimation,
    bounce: u32,
    last_lobe: LobeType,
    backface: bool,
) -> EmissiveResponse {
    if backface {
        EmissiveResponse::Absorb
    } else if nee == NextEventEstimation::Off || bounce == 0 || last_lobe
        != LobeType::DiffuseReflection {
        EmissiveResponse::AddEmission
    } else if nee == NextEventEstimation::MultipleImportanceSampling {
        EmissiveResponse::AddMisContribution
    } else {
        EmissiveResponse::EndSilently
    }
}

/// Decides what a path does on hitting an emissive triangle.
pub fn respond_to_emissive_hit(
    nee: NextEventEstimation,
    bounce: u32,
    last_lobe: LobeType,
    backface: bool,
) -> (r: EmissiveResponse)
    ensures
        r == emissive_response(nee, bounce, last_lobe, backface),
{
    if backface {
        EmissiveResponse::Absorb
    } else if !nee.uses_nee() || bounce == 0 || last_lobe != LobeType::DiffuseReflection {
        EmissiveResponse::AddEmission
    } else if nee.uses_mis() {
        EmissiveResponse::AddMisContribution
    } else {
        EmissiveResponse::EndSilently
    }
}

/// Emitters are single-sided: whatever the light-sampling mode, depth and
/// previous lobe, a path that meets the back of an emissive triangle adds
/// nothing to its pixel.
pub proof fn lemma_back_faces_emit_nothing(
    nee: NextEventEstimation,
    bounce: u32,
    last_lobe: LobeType,
)
    ensures
        !adds_radiance(emissive_response(nee, bounce, last_lobe, true)),
{
}

/// Whether lights are sampled directly at a bounce whose BSDF sample was
/// drawn from `lobe`: only diffuse bounces, and only with light sampling on.
pub fn samples_lights(nee: NextEventEstimation, lobe: LobeType) -> (r: bool)
    ensures
        r == (nee != NextEventEstimation::Off && lobe == LobeType::DiffuseReflection),
{
    nee.uses_nee() && lobe == LobeType::DiffuseReflection
}

/// Whether Russian roulette may end the path after `bounce`: only strictly
/// past the configured minimum depth.
pub fn roulette_applies(bounce: u32, min_bounces: u32) -> (r: bool)
    ensures
        r == (bounce > min_bounces),
{
    bounce > min_bounces
}

} // verus!

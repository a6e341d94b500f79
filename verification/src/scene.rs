use vstd::prelude::*;

use crate::time::Time;
use crate::Shader;

verus! {

/// Inputs handed to a scene's uniform producer: the playback time, sampled
/// exactly once per output frame and used consistently within that frame.
pub struct UniformsContext {
    pub time: Time,
}

/// What a scene renders with.
pub enum Content<'a> {
    SingleFragmentShader(Shader<'a>),
}

/// The per-scene contract for producing a shader's uniform payload from the
/// sampled time. The host implements it once per scene variant; the engine
/// calls it with the frame's `UniformsContext`.
pub trait UniformSource {
    fn produce_uniforms(&self, ctx: &UniformsContext) -> Vec<u8>;
}

/// A fixed-duration segment of the production with its renderable content
/// and its uniform-producing payload. Immutable once constructed.
pub struct Scene<'a, U> {
    pub duration: Time,
    pub content: Content<'a>,
    pub uniforms: U,
}

} // verus!

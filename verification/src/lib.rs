#![allow(unused_imports)]
use vstd::prelude::*;

pub mod binary;
pub mod editor;
pub mod engine;
pub mod music;
pub mod reload;
pub mod scene;
pub mod sync;
pub mod time;

pub use music::Music;
pub use scene::Scene;
pub use time::Time;

verus! {

/// A fragment shader source, either already in the engine's native shading
/// language or in GLSL still to be translated.
pub enum Shader<'a> {
    Wgsl(&'a str),
    Glsl(&'a str),
}

/// How the demo window covers the display.
#[derive(PartialEq, Eq, Structural, Clone, Copy, Debug)]
pub enum Fullscreen {
    No,
    Borderless,
    Exclusive,
}

/// A whole production: its title, window parameters, optional music, and
/// the fixed ordered sequence of scenes.
pub struct Demo<'a, U> {
    pub name: &'a str,
    pub resolution: (u32, u32),
    pub fullscreen: Fullscreen,
    pub music: Option<Music>,
    pub scenes: Vec<Scene<'a, U>>,
}

/// What naga's GLSL-to-WGSL translation produces for a fragment shader
/// source; a function of the source text alone.
pub uninterp spec fn wgsl_of(source: Seq<char>) -> Seq<char>;

/// Whether naga's GLSL-to-WGSL translation succeeds on a fragment shader
/// source; a function of the source text alone.
pub uninterp spec fn glsl_compiles(source: Seq<char>) -> bool;

/// Relies on naga's GLSL front end, validator, and WGSL back end: a pure
/// translation of fragment shader source text, succeeding exactly where the
/// chain accepts the source and failing with a diagnostic otherwise. The
/// outcome depends on the source alone.
#[verifier::external_body]
fn glsl_to_wgsl(source: &str) -> (r: Result<String, String>)
    ensures
        r is Ok <==> glsl_compiles(source@),
        r matches Ok(w) ==> w@ == wgsl_of(source@),
{
    let mut frontend = naga::front::glsl::Frontend::default();
    let options = naga::front::glsl::Options::from(naga::ShaderStage::Fragment);
    let module = frontend.parse(&options, source).map_err(|e| format!("{e:?}"))?;
    let info = naga::valid::Validator::new(
        naga::valid::ValidationFlags::all(),
        naga::valid::Capabilities::empty(),
    )
        .validate(&module)
        .map_err(|e| format!("{e:?}"))?;
    naga::back::wgsl::write_string(&module, &info, naga::back::wgsl::WriterFlags::empty()).map_err(
        |e| format!("{e:?}"),
    )
}

impl<'a> Shader<'a> {
    /// The shader in the engine's native shading language: native source
    /// passes through unchanged; GLSL goes through the translator, which
    /// succeeds exactly on source it accepts, and whose failure carries the
    /// diagnostic text and leaves the previous pipeline to the caller.
    pub fn into_wgsl(&self) -> (r: Result<String, String>)
        ensures
            self matches Shader::Wgsl(s) ==> (r matches Ok(w) && w@ == s@),
            self matches Shader::Glsl(s) ==> {
                &&& r is Ok <==> glsl_compiles(s@)
                &&& (r matches Ok(w) ==> w@ == wgsl_of(s@))
            },
    {
        match self {
            Shader::Wgsl(source) => Ok((*source).to_owned()),
            Shader::Glsl(source) => glsl_to_wgsl(source),
        }
    }
}

} // verus!

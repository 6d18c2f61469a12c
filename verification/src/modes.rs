//! The renderer's discrete settings: per-entity render modes, lighting
//! models, texture filters and output targets.
use vstd::prelude::*;
use vstd::string::*;

verus! {

/// Whether two strings hold the same characters.
pub fn str_equals(a: &str, b: &str) -> (eq: bool)
    ensures
        eq == (a@ == b@),
{
    let n = a.unicode_len();
    if n != b.unicode_len() {
        return false;
    }
    let mut i: usize = 0;
    while i < n
        invariant
            n == a@.len(),
            n == b@.len(),
            i <= n,
            forall|k: int| 0 <= k < i ==> a@[k] == b@[k],
        decreases n - i,
    {
        if a.get_char(i) != b.get_char(i) {
            return false;
        }
        i = i + 1;
    }
    assert(a@ == b@);
    true
}

/// How an entity's triangles are drawn.
#[derive(Debug, Clone, Copy, PartialEq, Eq, Structural)]
pub enum RenderMode {
    Solid,
    Wireframe,
    FixedPoint,
}

impl RenderMode {
    /// The name shown for the mode.
    pub fn label(&self) -> (s: &'static str)
        ensures
            s@ == (match self {
                RenderMode::Wireframe => "Wireframe",
                RenderMode::FixedPoint => "Fixed Point",
                RenderMode::Solid => "Standard",
            })@,
    {
        match self {
            RenderMode::Wireframe => "Wireframe",
            RenderMode::FixedPoint => "Fixed Point",
            RenderMode::Solid => "Standard",
        }
    }
}

impl Default for RenderMode {
    fn default() -> (m: RenderMode)
        ensures
            m == RenderMode::Solid,
    {
        RenderMode::Solid
    }
}

/// The mode an entity switches to when the user cycles its render mode:
/// solid and wireframe alternate, and fixed point goes back to solid.
pub open spec fn next_entity_mode_spec(mode: RenderMode) -> RenderMode {
    match mode {
        RenderMode::Solid => RenderMode::Wireframe,
        RenderMode::Wireframe => RenderMode::Solid,
        RenderMode::FixedPoint => RenderMode::Solid,
    }
}

/// The render mode that follows `mode` when the user cycles an entity's
/// mode.
pub fn next_entity_mode(mode: RenderMode) -> (next: RenderMode)
    ensures
        next == next_entity_mode_spec(mode),
{
    match mode {
        RenderMode::Solid => RenderMode::Wireframe,
        RenderMode::Wireframe => RenderMode::Solid,
        _ => RenderMode::Solid,
    }
}

/// Cycling never reaches the fixed-point mode, and from solid or
/// wireframe two cycles come back to the starting mode.
pub proof fn law_entity_mode_cycle(mode: RenderMode)
    ensures
        next_entity_mode_spec(mode) != RenderMode::FixedPoint,
        mode != RenderMode::FixedPoint ==> next_entity_mode_spec(next_entity_mode_spec(mode)) == mode,
{
}

/// The lighting model of the deferred lighting pass; `Unlit` skips the
/// pass and shows the surface colours as they are.
#[derive(Debug, Clone, Copy, PartialEq, Eq, Structural)]
pub enum LightMode {
    Flat,
    BlinnPhong,
    Unlit,
}

/// Flat shading: ambient and diffuse terms only.
#[derive(Debug, Clone, Copy, PartialEq, Eq, Structural)]
pub struct FlatShading;

/// Blinn-Phong shading: ambient, diffuse and specular terms.
#[derive(Debug, Clone, Copy, PartialEq, Eq, Structural)]
pub struct BlinnPhongShading;

/// How a texture is sampled between its texels.
#[derive(Debug, Clone, Copy, PartialEq, Eq, Structural)]
pub enum TextureFilter {
    Nearest,
    Bilinear,
}

/// Where the renderer shows its frames.
#[derive(Debug, Clone, Copy, PartialEq, Eq, Structural)]
pub enum DisplayTarget {
    Terminal,
    Window,
}

impl DisplayTarget {
    /// The target named by a `--mode` value: `terminal` or `t` for the
    /// terminal, `video` or `v` for a window, `None` for anything else.
    pub fn from_mode(mode: &str) -> (t: Option<DisplayTarget>)
        ensures
            t == (if mode@ == "terminal"@ || mode@ == "t"@ {
                Some(DisplayTarget::Terminal)
            } else if mode@ == "video"@ || mode@ == "v"@ {
                Some(DisplayTarget::Window)
            } else {
                None
            }),
    {
        if str_equals(mode, "terminal") || str_equals(mode, "t") {
            Some(DisplayTarget::Terminal)
        } else if str_equals(mode, "video") || str_equals(mode, "v") {
            Some(DisplayTarget::Window)
        } else {
            None
        }
    }
}

/// Where the older renderer shows its frames.
#[derive(Debug, Clone, Copy, PartialEq, Eq, Structural)]
pub enum RenderTarget {
    Term,
    Window,
    Both,
}

impl RenderTarget {
    /// The target named by the first program argument: `window` selects a
    /// window; anything else, or no argument, the terminal.
    pub fn from_arg(arg: Option<&str>) -> (t: RenderTarget)
        ensures
            t == (match arg {
                Some(a) => if a@ == "window"@ {
                    RenderTarget::Window
                } else {
                    RenderTarget::Term
                },
                None => RenderTarget::Term,
            }),
    {
        match arg {
            Some(a) => if str_equals(a, "window") {
                RenderTarget::Window
            } else {
                RenderTarget::Term
            },
            None => RenderTarget::Term,
        }
    }
}

} // verus!

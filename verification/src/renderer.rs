use vstd::prelude::*;

verus! {

/// How the terminal renderer draws triangles.
#[derive(Debug, Clone, Copy, PartialEq, Eq, Structural)]
pub enum RenderMode {
    Wireframe,
    Solid,
}

/// The mode that follows `mode` when the user cycles through the modes.
pub open spec fn next_render_mode(mode: RenderMode) -> RenderMode {
    match mode {
        RenderMode::Wireframe => RenderMode::Solid,
        RenderMode::Solid => RenderMode::Wireframe,
    }
}

/// The renderer's mutable drawing settings: the current render mode and
/// whether triangles are coloured individually.
///
/// A program keeps one of these behind a lock and hands it to the functions
/// below; a fresh value is the start-up state.
#[derive(Debug, Clone, Copy, PartialEq, Eq, Structural)]
pub struct RenderSettings {
    pub render_mode: RenderMode,
    pub color_tris: bool,
}

impl RenderSettings {
    /// The start-up settings: wireframe drawing, triangle colouring off.
    pub fn new() -> (s: RenderSettings)
        ensures
            s.render_mode == RenderMode::Wireframe,
            !s.color_tris,
    {
        RenderSettings { render_mode: RenderMode::Wireframe, color_tris: false }
    }
}

impl Default for RenderSettings {
    fn default() -> (s: RenderSettings)
        ensures
            s.render_mode == RenderMode::Wireframe,
            !s.color_tris,
    {
        RenderSettings::new()
    }
}

/// Flips whether triangles are coloured individually; the render mode stays.
pub fn toggle_color_tris(settings: &mut RenderSettings)
    ensures
        final(settings).color_tris == !old(settings).color_tris,
        final(settings).render_mode == old(settings).render_mode,
{
    settings.color_tris = !settings.color_tris;
}

/// Whether triangles are coloured individually.
pub fn get_color_tris(settings: &RenderSettings) -> (b: bool)
    ensures
        b == settings.color_tris,
{
    settings.color_tris
}

/// Replaces the render mode; triangle colouring stays.
pub fn set_render_mode(settings: &mut RenderSettings, mode: RenderMode)
    ensures
        final(settings).render_mode == mode,
        final(settings).color_tris == old(settings).color_tris,
{
    settings.render_mode = mode;
}

/// The current render mode.
pub fn get_render_mode(settings: &RenderSettings) -> (mode: RenderMode)
    ensures
        mode == settings.render_mode,
{
    settings.render_mode
}

/// Moves to the next render mode: wireframe becomes solid and solid becomes
/// wireframe. Triangle colouring stays.
pub fn cycle_render_mode(settings: &mut RenderSettings)
    ensures
        final(settings).render_mode == next_render_mode(old(settings).render_mode),
        final(settings).color_tris == old(settings).color_tris,
{
    settings.render_mode = match settings.render_mode {
        RenderMode::Wireframe => RenderMode::Solid,
        RenderMode::Solid => RenderMode::Wireframe,
    };
}

/// Cycling the render mode twice gives back the mode one started from, and a
/// single cycle always changes it.
pub proof fn law_cycle_render_mode_twice(mode: RenderMode)
    ensures
        next_render_mode(next_render_mode(mode)) == mode,
        next_render_mode(mode) != mode,
{
}

/// Toggling triangle colouring twice restores the settings one started from;
/// toggling is independent of the render mode.
pub proof fn law_toggle_color_tris_twice(s: RenderSettings, t: RenderSettings, u: RenderSettings)
    requires
        t.color_tris == !s.color_tris,
        t.render_mode == s.render_mode,
        u.color_tris == !t.color_tris,
        u.render_mode == t.render_mode,
    ensures
        u == s,
{
}

/// The drawing mode of the oldest renderer: wireframe by default, solid
/// fill, or wireframe over coloured triangles.
#[derive(Debug, Clone, Copy, PartialEq, Eq, Structural)]
#[allow(non_camel_case_types)]
pub enum RENDERMODE {
    Wireframe,
    Solid,
    WireframeTris,
}

impl Default for RENDERMODE {
    fn default() -> (m: RENDERMODE)
        ensures
            m == RENDERMODE::Wireframe,
    {
        RENDERMODE::Wireframe
    }
}

} // verus!

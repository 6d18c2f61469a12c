use terminal_renderer::modes::{
    next_entity_mode, str_equals, BlinnPhongShading, DisplayTarget, FlatShading, LightMode,
    RenderMode as EntityMode, RenderTarget, TextureFilter,
};
use terminal_renderer::renderer::{
    cycle_render_mode, get_color_tris, get_render_mode, set_render_mode, toggle_color_tris,
    RenderMode, RenderSettings, RENDERMODE,
};

#[test]
fn start_up_settings_are_wireframe_without_colouring() {
    let s = RenderSettings::new();
    assert_eq!(get_render_mode(&s), RenderMode::Wireframe);
    assert!(!get_color_tris(&s));
    assert_eq!(RenderSettings::default(), s);
}

#[test]
fn toggling_colour_twice_restores_settings() {
    let mut s = RenderSettings::new();
    set_render_mode(&mut s, RenderMode::Solid);
    let before = s;
    toggle_color_tris(&mut s);
    assert!(get_color_tris(&s));
    assert_eq!(get_render_mode(&s), RenderMode::Solid);
    toggle_color_tris(&mut s);
    assert_eq!(s, before);
}

#[test]
fn set_render_mode_keeps_colouring() {
    let mut s = RenderSettings::new();
    toggle_color_tris(&mut s);
    set_render_mode(&mut s, RenderMode::Solid);
    assert_eq!(get_render_mode(&s), RenderMode::Solid);
    assert!(get_color_tris(&s));
    set_render_mode(&mut s, RenderMode::Wireframe);
    assert_eq!(get_render_mode(&s), RenderMode::Wireframe);
}

#[test]
fn cycling_alternates_and_returns_after_two() {
    let mut s = RenderSettings::new();
    cycle_render_mode(&mut s);
    assert_eq!(get_render_mode(&s), RenderMode::Solid);
    assert!(!get_color_tris(&s));
    cycle_render_mode(&mut s);
    assert_eq!(get_render_mode(&s), RenderMode::Wireframe);
}

#[test]
fn oldest_render_mode_defaults_to_wireframe() {
    assert_eq!(RENDERMODE::default(), RENDERMODE::Wireframe);
    assert_ne!(RENDERMODE::Solid, RENDERMODE::WireframeTris);
}

#[test]
fn entity_mode_labels() {
    assert_eq!(EntityMode::Solid.label(), "Standard");
    assert_eq!(EntityMode::Wireframe.label(), "Wireframe");
    assert_eq!(EntityMode::FixedPoint.label(), "Fixed Point");
    assert_eq!(EntityMode::default(), EntityMode::Solid);
}

#[test]
fn entity_mode_cycle_skips_fixed_point() {
    assert_eq!(next_entity_mode(EntityMode::Solid), EntityMode::Wireframe);
    assert_eq!(next_entity_mode(EntityMode::Wireframe), EntityMode::Solid);
    assert_eq!(next_entity_mode(EntityMode::FixedPoint), EntityMode::Solid);
    let m = next_entity_mode(next_entity_mode(EntityMode::Wireframe));
    assert_eq!(m, EntityMode::Wireframe);
}

#[test]
fn display_target_from_mode_names() {
    assert_eq!(DisplayTarget::from_mode("terminal"), Some(DisplayTarget::Terminal));
    assert_eq!(DisplayTarget::from_mode("t"), Some(DisplayTarget::Terminal));
    assert_eq!(DisplayTarget::from_mode("video"), Some(DisplayTarget::Window));
    assert_eq!(DisplayTarget::from_mode("v"), Some(DisplayTarget::Window));
    assert_eq!(DisplayTarget::from_mode("window"), None);
    assert_eq!(DisplayTarget::from_mode(""), None);
    assert_eq!(DisplayTarget::from_mode("Terminal"), None);
}

#[test]
fn render_target_from_first_argument() {
    assert_eq!(RenderTarget::from_arg(Some("window")), RenderTarget::Window);
    assert_eq!(RenderTarget::from_arg(Some("term")), RenderTarget::Term);
    assert_eq!(RenderTarget::from_arg(Some("both")), RenderTarget::Term);
    assert_eq!(RenderTarget::from_arg(None), RenderTarget::Term);
    assert_ne!(RenderTarget::Both, RenderTarget::Term);
}

#[test]
fn string_equality_by_characters() {
    assert!(str_equals("héllo", "héllo"));
    assert!(!str_equals("hello", "hellO"));
    assert!(!str_equals("abc", "ab"));
    assert!(str_equals("", ""));
}

#[test]
fn lighting_and_filter_kinds_are_distinct() {
    assert_ne!(LightMode::Flat, LightMode::BlinnPhong);
    assert_ne!(LightMode::BlinnPhong, LightMode::Unlit);
    assert_eq!(FlatShading, FlatShading);
    assert_eq!(BlinnPhongShading, BlinnPhongShading);
    assert_ne!(TextureFilter::Nearest, TextureFilter::Bilinear);
}

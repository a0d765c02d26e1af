//! Where the pointer and the keys are routed: which widget a left click
//! belongs to, and what Escape does.

use vstd::prelude::*;

verus! {

/// What lies under the pointer when the left button goes down, as the
/// caller's hit tests see it (each only meaningful when the widget is shown).
pub struct ClickHits {
    /// First gravity preset button under the pointer.
    pub gravity_button: Option<usize>,
    /// The window-force slider's track.
    pub window_slider: bool,
    /// Audio is loaded and the volume slider's track is under the pointer.
    pub volume_slider: bool,
    /// The drag-mode picker is on screen.
    pub picker_active: bool,
    /// The spawner panel is on screen.
    pub spawner_active: bool,
    /// The context menu is shown.
    pub menu_visible: bool,
    /// The trail panel.
    pub trail_panel: bool,
    /// The field-slider panel is shown and under the pointer.
    pub field_panel: bool,
    /// The pointer is below the head-up bar.
    pub below_hud: bool,
}

/// The widget a left click goes to.
#[derive(Clone, Copy, PartialEq, Eq, Structural, Debug)]
pub enum ClickTarget {
    GravityPreset(usize),
    WindowSlider,
    VolumeSlider,
    DragPicker,
    Spawner,
    ContextMenu,
    TrailPanel,
    FieldSliders,
    Scene,
    Nothing,
}

/// The first widget, in order of precedence, that claims the click.
pub open spec fn click_target_spec(h: ClickHits) -> ClickTarget {
    if h.gravity_button is Some {
        ClickTarget::GravityPreset(h.gravity_button->Some_0)
    } else if h.window_slider {
        ClickTarget::WindowSlider
    } else if h.volume_slider {
        ClickTarget::VolumeSlider
    } else if h.picker_active {
        ClickTarget::DragPicker
    } else if h.spawner_active {
        ClickTarget::Spawner
    } else if h.menu_visible {
        ClickTarget::ContextMenu
    } else if h.trail_panel {
        ClickTarget::TrailPanel
    } else if h.field_panel {
        ClickTarget::FieldSliders
    } else if h.below_hud {
        ClickTarget::Scene
    } else {
        ClickTarget::Nothing
    }
}

/// Routes a left click: gravity presets first, then the window-force and
/// volume sliders, the drag-mode picker, the spawner, the context menu, the
/// trail panel, the field sliders, and last the scene below the head-up bar.
pub fn route_left_click(h: &ClickHits) -> (r: ClickTarget)
    ensures
        r == click_target_spec(*h),
{
    if let Some(i) = h.gravity_button {
        ClickTarget::GravityPreset(i)
    } else if h.window_slider {
        ClickTarget::WindowSlider
    } else if h.volume_slider {
        ClickTarget::VolumeSlider
    } else if h.picker_active {
        ClickTarget::DragPicker
    } else if h.spawner_active {
        ClickTarget::Spawner
    } else if h.menu_visible {
        ClickTarget::ContextMenu
    } else if h.trail_panel {
        ClickTarget::TrailPanel
    } else if h.field_panel {
        ClickTarget::FieldSliders
    } else if h.below_hud {
        ClickTarget::Scene
    } else {
        ClickTarget::Nothing
    }
}

/// No overlay widget (gravity preset, window-force or volume slider,
/// drag-mode picker, spawner, context menu) claims the click.
pub open spec fn no_overlay_claims(h: ClickHits) -> bool {
    &&& h.gravity_button is None
    &&& !h.window_slider
    &&& !h.volume_slider
    &&& !h.picker_active
    &&& !h.spawner_active
    &&& !h.menu_visible
}

/// `h2` is `h` with only the "below the head-up bar" answer changed.
pub open spec fn differs_in_height_only(h: ClickHits, h2: ClickHits) -> bool {
    &&& h2.gravity_button == h.gravity_button
    &&& h2.window_slider == h.window_slider
    &&& h2.volume_slider == h.volume_slider
    &&& h2.picker_active == h.picker_active
    &&& h2.spawner_active == h.spawner_active
    &&& h2.menu_visible == h.menu_visible
    &&& h2.trail_panel == h.trail_panel
    &&& h2.field_panel == h.field_panel
}

/// A gravity preset under the pointer takes the click first, then the
/// window-force slider, the volume slider, the drag-mode picker, the
/// spawner and the context menu, each over everything after it.  A left
/// click goes to a panel whenever one is under the pointer and no overlay
/// claims it: the trail panel before the field sliders, both
/// before the scene, wherever on the screen the panel lies.  The scene gets
/// the click only when no widget at all claims it and the pointer is below
/// the head-up bar, and where some widget claims the click, the height of
/// the pointer does not change where it goes.
pub proof fn lemma_click_panels_before_scene(h: ClickHits, h2: ClickHits)
    ensures
        h.gravity_button matches Some(i) ==> click_target_spec(h) == ClickTarget::GravityPreset(i),
        h.gravity_button is None && h.window_slider ==> click_target_spec(h)
            == ClickTarget::WindowSlider,
        h.gravity_button is None && !h.window_slider && h.volume_slider ==> click_target_spec(h)
            == ClickTarget::VolumeSlider,
        h.gravity_button is None && !h.window_slider && !h.volume_slider && h.picker_active
            ==> click_target_spec(h) == ClickTarget::DragPicker,
        h.gravity_button is None && !h.window_slider && !h.volume_slider && !h.picker_active
            && h.spawner_active ==> click_target_spec(h) == ClickTarget::Spawner,
        h.gravity_button is None && !h.window_slider && !h.volume_slider && !h.picker_active
            && !h.spawner_active && h.menu_visible ==> click_target_spec(h) == ClickTarget::ContextMenu,
        no_overlay_claims(h) && h.trail_panel ==> click_target_spec(h) == ClickTarget::TrailPanel,
        no_overlay_claims(h) && !h.trail_panel && h.field_panel ==> click_target_spec(h)
            == ClickTarget::FieldSliders,
        click_target_spec(h) == ClickTarget::Scene <==> no_overlay_claims(h) && !h.trail_panel
            && !h.field_panel && h.below_hud,
        click_target_spec(h) == ClickTarget::Nothing <==> no_overlay_claims(h) && !h.trail_panel
            && !h.field_panel && !h.below_hud,
        differs_in_height_only(h, h2) && !(no_overlay_claims(h) && !h.trail_panel && !h.field_panel)
            ==> click_target_spec(h2) == click_target_spec(h),
{
}

/// What Q or Escape does during play.
#[derive(Clone, Copy, PartialEq, Eq, Structural, Debug)]
pub enum EscapeAction {
    CloseMenu,
    Quit,
}

/// Q / Escape closes an open context menu, and otherwise quits.
pub fn escape_action(menu_visible: bool) -> (r: EscapeAction)
    ensures
        r == if menu_visible {
            EscapeAction::CloseMenu
        } else {
            EscapeAction::Quit
        },
{
    if menu_visible {
        EscapeAction::CloseMenu
    } else {
        EscapeAction::Quit
    }
}

} // verus!

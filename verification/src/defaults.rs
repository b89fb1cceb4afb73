//! The default configuration: the literal key bindings, the workspace
//! tags, the mouse bindings and the layout stack that the window manager
//! starts with.

use vstd::prelude::*;
use crate::actions::{Action, ActionV, ClientOp, ClientOpV, LayoutMsg, MouseAction};
use crate::bindings::{
    binding_views, build_mouse_table, mouse_entry_views, mouse_table_of, tag_views, Modifier,
    MouseButton, MouseTable, RawBinding, RawBindingV, RawMouseBinding, RawMouseBindingV,
};
use crate::layout::{
    build_stack, wrap_chain, BaseLayout, LayoutStack, StackPosition, Transformer, WrappedLayout,
};

verus! {

/// The maximum number of windows in the main area.
pub const MAX_MAIN: u32 = 1;

/// The share of the screen given to the main area, in hundredths.
pub const RATIO: u32 = 60;

/// The step by which the main-area share changes, in hundredths.
pub const RATIO_STEP: u32 = 10;

/// The gap at the screen edge, in pixels.
pub const OUTER_PX: u32 = 0;

/// The gap around each window, in pixels.
pub const INNER_PX: u32 = 5;

/// The height of the status bar, in pixels.
pub const BAR_HEIGHT_PX: u32 = 30;

/// The default literal key bindings, in entry order.
pub open spec fn default_literal_bindings() -> Seq<RawBindingV> {
    seq![
        RawBindingV {
            trigger: "XF86MonBrightnessUp"@,
            action: ActionV::Spawn("xbacklight +5"@),
        },
        RawBindingV {
            trigger: "XF86MonBrightnessDown"@,
            action: ActionV::Spawn("xbacklight -5"@),
        },
        RawBindingV {
            trigger: "XF86AudioRaiseVolume"@,
            action: ActionV::Spawn("pulsemixer --change-volume +5"@),
        },
        RawBindingV {
            trigger: "XF86AudioLowerVolume"@,
            action: ActionV::Spawn("pulsemixer --change-volume -5"@),
        },
        RawBindingV {
            trigger: "XF86AudioMute"@,
            action: ActionV::Spawn("pulsemixer --toggle-mute"@),
        },
        RawBindingV { trigger: "XF86AudioMicMute"@, action: ActionV::Spawn("mute-mic"@) },
        RawBindingV { trigger: "Print"@, action: ActionV::Spawn("scrot -s"@) },
        RawBindingV { trigger: "M-u"@, action: ActionV::Modify(ClientOpV::FocusDown) },
        RawBindingV { trigger: "M-o"@, action: ActionV::Modify(ClientOpV::FocusUp) },
        RawBindingV { trigger: "M-l"@, action: ActionV::Modify(ClientOpV::SwapDown) },
        RawBindingV { trigger: "M-j"@, action: ActionV::Modify(ClientOpV::SwapUp) },
        RawBindingV { trigger: "M-S-c"@, action: ActionV::Modify(ClientOpV::KillFocused) },
        RawBindingV { trigger: "M-Tab"@, action: ActionV::Modify(ClientOpV::ToggleTag) },
        RawBindingV { trigger: "M-w"@, action: ActionV::Modify(ClientOpV::FocusScreen(0)) },
        RawBindingV { trigger: "M-e"@, action: ActionV::Modify(ClientOpV::FocusScreen(1)) },
        RawBindingV {
            trigger: "M-S-e"@,
            action: ActionV::Modify(ClientOpV::MoveFocusedToScreen(1)),
        },
        RawBindingV {
            trigger: "M-S-w"@,
            action: ActionV::Modify(ClientOpV::MoveFocusedToScreen(0)),
        },
        RawBindingV { trigger: "M-space"@, action: ActionV::Modify(ClientOpV::NextLayout) },
        RawBindingV {
            trigger: "M-S-space"@,
            action: ActionV::Modify(ClientOpV::PreviousLayout),
        },
        RawBindingV {
            trigger: "M-S-i"@,
            action: ActionV::SendLayoutMessage(LayoutMsg::IncMain(1i32)),
        },
        RawBindingV {
            trigger: "M-S-k"@,
            action: ActionV::SendLayoutMessage(LayoutMsg::IncMain(-1i32)),
        },
        RawBindingV {
            trigger: "M-S-l"@,
            action: ActionV::SendLayoutMessage(LayoutMsg::ExpandMain),
        },
        RawBindingV {
            trigger: "M-S-j"@,
            action: ActionV::SendLayoutMessage(LayoutMsg::ShrinkMain),
        },
        RawBindingV { trigger: "M-p"@, action: ActionV::Spawn("dmenu_run -c -l 14 -g 4"@) },
        RawBindingV { trigger: "M-S-Return"@, action: ActionV::Spawn("st"@) },
        RawBindingV { trigger: "M-d"@, action: ActionV::Spawn("vesktop"@) },
        RawBindingV { trigger: "M-F7"@, action: ActionV::Spawn("iwd-dmenu"@) },
        RawBindingV { trigger: "M-S-q"@, action: ActionV::Spawn("pkill -fi penrose"@) },
        RawBindingV { trigger: "M-f"@, action: ActionV::Spawn("firefox"@) },
        RawBindingV { trigger: "M-S-f"@, action: ActionV::Spawn("firefox --private-window"@) },
        RawBindingV { trigger: "M-q"@, action: ActionV::Exit },
        RawBindingV { trigger: "M-t"@, action: ActionV::Modify(ClientOpV::SinkFocused) },
    ]
}

/// The literal key bindings the window manager starts with: media keys,
/// focus and stacking movement, layout control, launchers and exit.
#[verifier::rlimit(50)]
pub fn raw_key_bindings() -> (r: Vec<RawBinding>)
    ensures
        binding_views(r@) == default_literal_bindings(),
{
    let mut r: Vec<RawBinding> = Vec::new();
    r.push(
        RawBinding {
            trigger: String::from_str("XF86MonBrightnessUp"),
            action: Action::Spawn(String::from_str("xbacklight +5")),
        },
    );
    r.push(
        RawBinding {
            trigger: String::from_str("XF86MonBrightnessDown"),
            action: Action::Spawn(String::from_str("xbacklight -5")),
        },
    );
    r.push(
        RawBinding {
            trigger: String::from_str("XF86AudioRaiseVolume"),
            action: Action::Spawn(String::from_str("pulsemixer --change-volume +5")),
        },
    );
    r.push(
        RawBinding {
            trigger: String::from_str("XF86AudioLowerVolume"),
            action: Action::Spawn(String::from_str("pulsemixer --change-volume -5")),
        },
    );
    r.push(
        RawBinding {
            trigger: String::from_str("XF86AudioMute"),
            action: Action::Spawn(String::from_str("pulsemixer --toggle-mute")),
        },
    );
    r.push(
        RawBinding {
            trigger: String::from_str("XF86AudioMicMute"),
            action: Action::Spawn(String::from_str("mute-mic")),
        },
    );
    r.push(
        RawBinding {
            trigger: String::from_str("Print"),
            action: Action::Spawn(String::from_str("scrot -s")),
        },
    );
    r.push(
        RawBinding {
            trigger: String::from_str("M-u"),
            action: Action::Modify(ClientOp::FocusDown),
        },
    );
    r.push(
        RawBinding { trigger: String::from_str("M-o"), action: Action::Modify(ClientOp::FocusUp) },
    );
    r.push(
        RawBinding {
            trigger: String::from_str("M-l"),
            action: Action::Modify(ClientOp::SwapDown),
        },
    );
    r.push(
        RawBinding { trigger: String::from_str("M-j"), action: Action::Modify(ClientOp::SwapUp) },
    );
    r.push(
        RawBinding {
            trigger: String::from_str("M-S-c"),
            action: Action::Modify(ClientOp::KillFocused),
        },
    );
    r.push(
        RawBinding {
            trigger: String::from_str("M-Tab"),
            action: Action::Modify(ClientOp::ToggleTag),
        },
    );
    r.push(
        RawBinding {
            trigger: String::from_str("M-w"),
            action: Action::Modify(ClientOp::FocusScreen(0)),
        },
    );
    r.push(
        RawBinding {
            trigger: String::from_str("M-e"),
            action: Action::Modify(ClientOp::FocusScreen(1)),
        },
    );
    r.push(
        RawBinding {
            trigger: String::from_str("M-S-e"),
            action: Action::Modify(ClientOp::MoveFocusedToScreen(1)),
        },
    );
    r.push(
        RawBinding {
            trigger: String::from_str("M-S-w"),
            action: Action::Modify(ClientOp::MoveFocusedToScreen(0)),
        },
    );
    r.push(
        RawBinding {
            trigger: String::from_str("M-space"),
            action: Action::Modify(ClientOp::NextLayout),
        },
    );
    r.push(
        RawBinding {
            trigger: String::from_str("M-S-space"),
            action: Action::Modify(ClientOp::PreviousLayout),
        },
    );
    r.push(
        RawBinding {
            trigger: String::from_str("M-S-i"),
            action: Action::SendLayoutMessage(LayoutMsg::IncMain(1)),
        },
    );
    r.push(
        RawBinding {
            trigger: String::from_str("M-S-k"),
            action: Action::SendLayoutMessage(LayoutMsg::IncMain(-1)),
        },
    );
    r.push(
        RawBinding {
            trigger: String::from_str("M-S-l"),
            action: Action::SendLayoutMessage(LayoutMsg::ExpandMain),
        },
    );
    r.push(
        RawBinding {
            trigger: String::from_str("M-S-j"),
            action: Action::SendLayoutMessage(LayoutMsg::ShrinkMain),
        },
    );
    r.push(
        RawBinding {
            trigger: String::from_str("M-p"),
            action: Action::Spawn(String::from_str("dmenu_run -c -l 14 -g 4")),
        },
    );
    r.push(
        RawBinding {
            trigger: String::from_str("M-S-Return"),
            action: Action::Spawn(String::from_str("st")),
        },
    );
    r.push(
        RawBinding {
            trigger: String::from_str("M-d"),
            action: Action::Spawn(String::from_str("vesktop")),
        },
    );
    r.push(
        RawBinding {
            trigger: String::from_str("M-F7"),
            action: Action::Spawn(String::from_str("iwd-dmenu")),
        },
    );
    r.push(
        RawBinding {
            trigger: String::from_str("M-S-q"),
            action: Action::Spawn(String::from_str("pkill -fi penrose")),
        },
    );
    r.push(
        RawBinding {
            trigger: String::from_str("M-f"),
            action: Action::Spawn(String::from_str("firefox")),
        },
    );
    r.push(
        RawBinding {
            trigger: String::from_str("M-S-f"),
            action: Action::Spawn(String::from_str("firefox --private-window")),
        },
    );
    r.push(RawBinding { trigger: String::from_str("M-q"), action: Action::Exit });
    r.push(
        RawBinding {
            trigger: String::from_str("M-t"),
            action: Action::Modify(ClientOp::SinkFocused),
        },
    );
    assert(binding_views(r@) =~= default_literal_bindings());
    r
}

/// The default workspace tags, in order.
pub open spec fn default_tag_names() -> Seq<Seq<char>> {
    seq!["1"@, "2"@, "3"@, "4"@, "5"@, "6"@, "7"@, "8"@, "9"@]
}

/// The nine default workspace tags, `"1"` through `"9"`.
pub fn default_workspace_tags() -> (r: Vec<String>)
    ensures
        tag_views(r@) == default_tag_names(),
{
    let mut r: Vec<String> = Vec::new();
    r.push(String::from_str("1"));
    r.push(String::from_str("2"));
    r.push(String::from_str("3"));
    r.push(String::from_str("4"));
    r.push(String::from_str("5"));
    r.push(String::from_str("6"));
    r.push(String::from_str("7"));
    r.push(String::from_str("8"));
    r.push(String::from_str("9"));
    assert(tag_views(r@) =~= default_tag_names());
    r
}

/// The default literal mouse bindings, in entry order.
pub open spec fn default_mouse_entries() -> Seq<RawMouseBindingV> {
    seq![
        RawMouseBindingV {
            button: MouseButton::Left,
            modifiers: seq![Modifier::Meta],
            action: MouseAction::DragFloating,
        },
        RawMouseBindingV {
            button: MouseButton::Right,
            modifiers: seq![Modifier::Meta],
            action: MouseAction::ResizeFloating,
        },
    ]
}

/// The default mouse bindings: meta-left-drag moves a floating window,
/// meta-right-drag resizes it.
pub fn mouse_bindings() -> (r: MouseTable)
    ensures
        r@ == mouse_table_of(default_mouse_entries()),
{
    let mut meta_only_drag: Vec<Modifier> = Vec::new();
    meta_only_drag.push(Modifier::Meta);
    let mut meta_only_resize: Vec<Modifier> = Vec::new();
    meta_only_resize.push(Modifier::Meta);
    let mut entries: Vec<RawMouseBinding> = Vec::new();
    entries.push(
        RawMouseBinding {
            button: MouseButton::Left,
            modifiers: meta_only_drag,
            action: MouseAction::DragFloating,
        },
    );
    entries.push(
        RawMouseBinding {
            button: MouseButton::Right,
            modifiers: meta_only_resize,
            action: MouseAction::ResizeFloating,
        },
    );
    assert(mouse_entry_views(entries@) =~= default_mouse_entries()) by {
        assert(mouse_entry_views(entries@)[0].modifiers =~= seq![Modifier::Meta]);
        assert(mouse_entry_views(entries@)[1].modifiers =~= seq![Modifier::Meta]);
    }
    build_mouse_table(entries)
}

/// The default base layouts, in order.
pub open spec fn default_base_layouts() -> Seq<BaseLayout> {
    seq![
        BaseLayout::MainAndStack {
            position: StackPosition::Side,
            max_main: MAX_MAIN,
            ratio: RATIO,
            ratio_step: RATIO_STEP,
        },
        BaseLayout::MainAndStack {
            position: StackPosition::SideMirrored,
            max_main: MAX_MAIN,
            ratio: RATIO,
            ratio_step: RATIO_STEP,
        },
        BaseLayout::MainAndStack {
            position: StackPosition::Bottom,
            max_main: MAX_MAIN,
            ratio: RATIO,
            ratio_step: RATIO_STEP,
        },
        BaseLayout::Monocle,
    ]
}

/// The default transformer chain: gaps first (innermost), then the
/// reserved status-bar band (outermost).
pub open spec fn default_transformers() -> Seq<Transformer> {
    seq![
        Transformer::Gaps { outer_px: OUTER_PX, inner_px: INNER_PX },
        Transformer::ReserveTop { px: BAR_HEIGHT_PX },
    ]
}

/// The default layout stack: three main-and-stack variants and monocle,
/// each wrapped in the default gaps and the reserved status-bar band,
/// with the first layout selected.
pub fn layouts() -> (r: LayoutStack)
    ensures
        r.wf(),
        r.selected_index() == 0,
        r.layout_seq().len() == default_base_layouts().len(),
        forall|i: int|
            0 <= i < default_base_layouts().len() ==> r.layout_seq()[i] == wrap_chain(
                default_transformers(),
                WrappedLayout::Base(default_base_layouts()[i]),
            ),
{
    let mut base: Vec<BaseLayout> = Vec::new();
    base.push(
        BaseLayout::MainAndStack {
            position: StackPosition::Side,
            max_main: MAX_MAIN,
            ratio: RATIO,
            ratio_step: RATIO_STEP,
        },
    );
    base.push(
        BaseLayout::MainAndStack {
            position: StackPosition::SideMirrored,
            max_main: MAX_MAIN,
            ratio: RATIO,
            ratio_step: RATIO_STEP,
        },
    );
    base.push(
        BaseLayout::MainAndStack {
            position: StackPosition::Bottom,
            max_main: MAX_MAIN,
            ratio: RATIO,
            ratio_step: RATIO_STEP,
        },
    );
    base.push(BaseLayout::Monocle);
    let mut chain: Vec<Transformer> = Vec::new();
    chain.push(Transformer::Gaps { outer_px: OUTER_PX, inner_px: INNER_PX });
    chain.push(Transformer::ReserveTop { px: BAR_HEIGHT_PX });
    assert(base@ =~= default_base_layouts());
    assert(chain@ =~= default_transformers());
    match build_stack(base, chain) {
        Ok(s) => s,
        Err(_) => unreached(),
    }
}

} // verus!

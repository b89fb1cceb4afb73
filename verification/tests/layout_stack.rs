//! Tests for the layout-stack builder.

use wm_config::bindings::MouseButton;
use wm_config::defaults::{layouts, mouse_bindings, BAR_HEIGHT_PX, INNER_PX, MAX_MAIN, OUTER_PX,
    RATIO, RATIO_STEP};
use wm_config::layout::{
    build_stack, reserved_top_px, BaseLayout, LayoutError, StackPosition, Transformer,
    WrappedLayout,
};

fn side() -> BaseLayout {
    BaseLayout::MainAndStack {
        position: StackPosition::Side,
        max_main: 1,
        ratio: 60,
        ratio_step: 10,
    }
}

fn bottom() -> BaseLayout {
    BaseLayout::MainAndStack {
        position: StackPosition::Bottom,
        max_main: 2,
        ratio: 50,
        ratio_step: 5,
    }
}

fn wrapper_count(layout: &WrappedLayout) -> usize {
    match layout {
        WrappedLayout::Base(_) => 0,
        WrappedLayout::Wrapped(_, inner) => 1 + wrapper_count(inner),
    }
}

fn unwrap_fully(layout: &WrappedLayout) -> &WrappedLayout {
    match layout {
        WrappedLayout::Base(_) => layout,
        WrappedLayout::Wrapped(_, inner) => unwrap_fully(inner),
    }
}

#[test]
fn every_element_gets_the_whole_chain() {
    let bases = vec![side(), bottom(), BaseLayout::Monocle];
    let chain = vec![
        Transformer::Gaps { outer_px: 1, inner_px: 2 },
        Transformer::ReserveTop { px: 10 },
        Transformer::ReserveTop { px: 7 },
    ];
    let stack = build_stack(bases.clone(), chain).unwrap();
    assert_eq!(stack.len(), 3);
    assert_eq!(stack.selected(), 0);
    for (i, base) in bases.iter().enumerate() {
        let element = stack.get(i);
        assert_eq!(wrapper_count(element), 3);
        assert_eq!(unwrap_fully(element), &WrappedLayout::Base(*base));
        assert_eq!(reserved_top_px(element), 17);
    }
}

#[test]
fn wrapping_order_is_first_innermost() {
    let chain = vec![
        Transformer::Gaps { outer_px: 0, inner_px: 5 },
        Transformer::ReserveTop { px: 30 },
    ];
    let stack = build_stack(vec![side()], chain).unwrap();
    match stack.get(0) {
        WrappedLayout::Wrapped(Transformer::ReserveTop { px: 30 }, inner) => match &**inner {
            WrappedLayout::Wrapped(Transformer::Gaps { outer_px: 0, inner_px: 5 }, base) => {
                assert_eq!(&**base, &WrappedLayout::Base(side()));
            }
            other => panic!("expected gaps beneath the reserved band, got {other:?}"),
        },
        other => panic!("expected the reserved band outermost, got {other:?}"),
    }
}

#[test]
fn empty_layout_list_is_rejected() {
    let chain = vec![Transformer::ReserveTop { px: 30 }];
    assert_eq!(build_stack(Vec::new(), chain), Err(LayoutError::EmptyLayoutList));
}

#[test]
fn two_layouts_share_the_reserved_band() {
    let chain = vec![
        Transformer::Gaps { outer_px: 0, inner_px: 5 },
        Transformer::ReserveTop { px: 30 },
    ];
    let stack = build_stack(vec![side(), bottom()], chain).unwrap();
    assert_eq!(stack.len(), 2);
    assert_eq!(stack.selected(), 0);
    assert_eq!(reserved_top_px(stack.get(0)), 30);
    assert_eq!(reserved_top_px(stack.get(1)), 30);
}

#[test]
fn default_stack_wraps_four_layouts() {
    let stack = layouts();
    assert_eq!(stack.len(), 4);
    assert_eq!(stack.selected(), 0);
    let expected = [
        BaseLayout::MainAndStack {
            position: StackPosition::Side,
            max_main: MAX_MAIN,
            ratio: RATIO,
            ratio_step: RATIO_STEP,
        },
        BaseLayout::MainAndStack {
            position: StackPosition::SideMirrored,
            max_main: MAX_MAIN,
            ratio: RATIO,
            ratio_step: RATIO_STEP,
        },
        BaseLayout::MainAndStack {
            position: StackPosition::Bottom,
            max_main: MAX_MAIN,
            ratio: RATIO,
            ratio_step: RATIO_STEP,
        },
        BaseLayout::Monocle,
    ];
    for (i, base) in expected.iter().enumerate() {
        let element = stack.get(i);
        assert_eq!(wrapper_count(element), 2);
        assert_eq!(unwrap_fully(element), &WrappedLayout::Base(*base));
        assert_eq!(reserved_top_px(element), u64::from(BAR_HEIGHT_PX));
        match element {
            WrappedLayout::Wrapped(Transformer::ReserveTop { px }, inner) => {
                assert_eq!(*px, BAR_HEIGHT_PX);
                match &**inner {
                    WrappedLayout::Wrapped(Transformer::Gaps { outer_px, inner_px }, _) => {
                        assert_eq!(*outer_px, OUTER_PX);
                        assert_eq!(*inner_px, INNER_PX);
                    }
                    other => panic!("expected gaps beneath the reserved band, got {other:?}"),
                }
            }
            other => panic!("expected the reserved band outermost, got {other:?}"),
        }
    }
}

#[test]
fn cycling_wraps_modulo_length() {
    let mut stack = layouts();
    assert_eq!(stack.selected(), 0);
    stack.cycle_next();
    assert_eq!(stack.selected(), 1);
    stack.cycle_next();
    stack.cycle_next();
    assert_eq!(stack.selected(), 3);
    stack.cycle_next();
    assert_eq!(stack.selected(), 0);
}

#[test]
fn saturating_reserved_band() {
    let chain = vec![
        Transformer::ReserveTop { px: u32::MAX },
        Transformer::ReserveTop { px: u32::MAX },
    ];
    let stack = build_stack(vec![BaseLayout::Monocle], chain).unwrap();
    assert_eq!(reserved_top_px(stack.get(0)), 2 * u64::from(u32::MAX));
}

#[test]
fn default_mouse_bindings_drag_and_resize() {
    let table = mouse_bindings();
    assert_eq!(table.len(), 2);
    let (first_trigger, _) = table.entry_at(0);
    assert_eq!(first_trigger.button, MouseButton::Left);
    assert!(first_trigger.mods.meta);
    assert!(!first_trigger.mods.shift);
}

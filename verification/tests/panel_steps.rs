use widgetry_panel::panel::{Panel, Scrollbar};
use widgetry_panel::plan::{after_widgets, DrawStep, PanelStep};
use widgetry_panel::widget::{Widget, WidgetKind};

fn panel(horiz: bool, vert: bool) -> Panel<u32, i32> {
    let contents = Widget::container(1, vec![Widget::new(WidgetKind::Other(0), 2).named("label")]);
    let bar = |on: bool| {
        if on {
            Some(Scrollbar { container_style: 3, slider: Widget::new(WidgetKind::Slider(0), 4) })
        } else {
            None
        }
    };
    Panel::new(contents).build_custom(bar(horiz), bar(vert)).0
}

#[test]
fn an_unclipped_panel_marks_its_area_and_draws_its_widgets() {
    assert_eq!(
        panel(false, false).draw(),
        vec![DrawStep::MarkAreaCovered, DrawStep::Unfork, DrawStep::DrawWidgets]
    );
}

#[test]
fn a_scrolling_panel_draws_its_scrollbars_after_clipping_ends() {
    assert_eq!(
        panel(true, true).draw(),
        vec![
            DrawStep::EnableClipping,
            DrawStep::MarkVisibleCovered,
            DrawStep::Unfork,
            DrawStep::DrawWidgets,
            DrawStep::DisableClipping,
            DrawStep::DrawHorizScrollbar,
            DrawStep::DrawVertScrollbar,
        ]
    );
    assert_eq!(
        panel(false, true).draw(),
        vec![
            DrawStep::EnableClipping,
            DrawStep::MarkVisibleCovered,
            DrawStep::Unfork,
            DrawStep::DrawWidgets,
            DrawStep::DisableClipping,
            DrawStep::DrawVertScrollbar,
        ]
    );
}

#[test]
fn scrolling_sets_each_scrollbar_then_lays_out() {
    assert_eq!(panel(false, false).set_scroll_offset(), vec![]);
    assert_eq!(
        panel(true, false).set_scroll_offset(),
        vec![PanelStep::SetHorizScrollbar, PanelStep::Relayout { recompute_bg: false }]
    );
    assert_eq!(
        panel(true, true).set_scroll_offset(),
        vec![
            PanelStep::SetHorizScrollbar,
            PanelStep::SetVertScrollbar,
            PanelStep::Relayout { recompute_bg: false },
        ]
    );
}

#[test]
fn the_wheel_scrolls_only_a_scrolling_panel_under_the_cursor() {
    let p = panel(false, true);
    assert_eq!(
        p.event(true, true, false),
        vec![
            PanelStep::SetVertScrollbar,
            PanelStep::Relayout { recompute_bg: false },
            PanelStep::RunWidgets,
        ]
    );
    assert_eq!(p.event(false, true, false), vec![PanelStep::RunWidgets]);
    assert_eq!(p.event(true, false, false), vec![PanelStep::RunWidgets]);
    assert_eq!(panel(false, false).event(true, true, false), vec![PanelStep::RunWidgets]);
}

#[test]
fn a_resized_window_lays_the_panel_out_before_the_widgets_run() {
    assert_eq!(
        panel(false, false).event(false, false, true),
        vec![PanelStep::Relayout { recompute_bg: false }, PanelStep::RunWidgets]
    );
    assert_eq!(
        panel(true, false).event(true, true, true),
        vec![
            PanelStep::SetHorizScrollbar,
            PanelStep::Relayout { recompute_bg: false },
            PanelStep::Relayout { recompute_bg: false },
            PanelStep::RunWidgets,
        ]
    );
}

#[test]
fn the_layout_is_redone_after_the_widgets_when_needed() {
    assert_eq!(after_widgets(false, false), None);
    assert_eq!(after_widgets(true, false), Some(PanelStep::Relayout { recompute_bg: true }));
    assert_eq!(after_widgets(false, true), Some(PanelStep::Relayout { recompute_bg: true }));
    assert_eq!(after_widgets(true, true), Some(PanelStep::Relayout { recompute_bg: true }));
}

use widgetry_panel::panel::{Dims, Panel, Scrollbar};
use widgetry_panel::plan::PanelStep;
use widgetry_panel::widget::{Widget, WidgetKind};

fn leaf(kind: WidgetKind<i32>, style: u32) -> Widget<u32, i32> {
    Widget::new(kind, style)
}

fn contents() -> Widget<u32, i32> {
    Widget::container(
        1,
        vec![
            leaf(WidgetKind::Checkbox { enabled: true }, 2).named("lights"),
            leaf(WidgetKind::TextBox { line: "Main St".to_string() }, 3).named("street"),
            leaf(WidgetKind::Spinner { current: 12 }, 4).named("lanes"),
            leaf(WidgetKind::Dropdown(3), 5).named("mode"),
            leaf(WidgetKind::PersistentSplit(4), 6).named("split"),
            leaf(WidgetKind::Autocomplete(5), 7).named("search"),
            leaf(WidgetKind::AreaSlider(6), 8).named("area"),
            leaf(WidgetKind::Button { action: "close".to_string() }, 9).named("close"),
        ],
    )
}

fn bar(container_style: u32, position: i32) -> Option<Scrollbar<u32, i32>> {
    Some(Scrollbar { container_style, slider: leaf(WidgetKind::Slider(position), 70) })
}

#[test]
fn a_new_panel_may_take_the_whole_window() {
    let b = Panel::new(contents());
    assert_eq!(b.dims(), Dims::MaxPercent(100, 100));
    assert_eq!(b.top_level().len(), 9);
}

#[test]
fn size_limits_are_recorded() {
    let b = Panel::new(contents()).max_size(60, 100);
    assert_eq!(b.dims(), Dims::MaxPercent(60, 100));
    let b = b.exact_size_percent(30, 40);
    assert_eq!(b.dims(), Dims::ExactPercent(30, 40));
    let b = b.max_size(100, 50);
    assert_eq!(b.dims(), Dims::MaxPercent(100, 50));
}

#[test]
fn a_panel_that_fits_gets_no_scrollbar() {
    let p = Panel::new(contents()).build_custom(None, None).0;
    assert!(!p.scrollable_x());
    assert!(!p.scrollable_y());
    assert!(!p.is_clipped());
    assert_eq!(p.top_level().len(), 9);
    assert!(!p.has_widget("horiz scrollbar"));
    assert!(!p.has_widget("vert scrollbar"));
}

#[test]
fn a_horizontal_scrollbar_goes_below_the_contents() {
    let p = Panel::new(contents()).exact_size_percent(50, 50).build_custom(bar(40, 0), None).0;
    assert!(p.scrollable_x());
    assert!(!p.scrollable_y());
    assert!(p.is_clipped());
    assert_eq!(p.dims(), Dims::ExactPercent(50, 50));
    let t = p.top_level();
    assert_eq!(t.len(), 11);
    assert_eq!(t.node(0).style, 40);
    assert_eq!(t.node(0).depth, 0);
    assert_eq!(t.node(1).style, 1);
    assert_eq!(t.node(1).depth, 1);
    assert_eq!(t.find("horiz scrollbar"), Some(10));
    assert_eq!(t.node(10).depth, 1);
    assert_eq!(*p.slider("horiz scrollbar"), 0);
}

#[test]
fn both_scrollbars_nest_the_horizontal_one_inside() {
    let p = Panel::new(contents()).build_custom(bar(40, 1), bar(41, 2)).0;
    assert!(p.scrollable_x() && p.scrollable_y() && p.is_clipped());
    let t = p.top_level();
    assert_eq!(t.len(), 13);
    assert_eq!(t.node(0).style, 41);
    assert_eq!(t.node(1).style, 40);
    assert_eq!(t.node(1).depth, 1);
    assert_eq!(t.node(2).depth, 2);
    assert_eq!(t.find("horiz scrollbar"), Some(11));
    assert_eq!(t.node(11).depth, 2);
    assert_eq!(t.find("vert scrollbar"), Some(12));
    assert_eq!(t.node(12).depth, 1);
    assert_eq!(*p.slider("horiz scrollbar"), 1);
    assert_eq!(*p.slider("vert scrollbar"), 2);
}

#[test]
fn build_applies_the_panel_style_first() {
    let p = Panel::new(contents()).build(88, None, bar(41, 2)).0;
    let t = p.top_level();
    assert_eq!(t.node(0).style, 41);
    assert_eq!(t.node(1).style, 88);
    assert!(p.scrollable_y());
    assert!(!p.scrollable_x());
}

#[test]
fn typed_lookups_read_the_widgets() {
    let p = Panel::new(contents()).build_custom(None, None).0;
    assert!(p.is_checked("lights"));
    assert_eq!(p.maybe_is_checked("lights"), Some(true));
    assert_eq!(p.maybe_is_checked("nothing"), None);
    assert_eq!(p.text_box("street"), "Main St".to_string());
    assert_eq!(p.spinner("lanes"), 12);
    assert_eq!(*p.dropdown_value("mode"), 3);
    assert_eq!(*p.persistent_split_value("split"), 4);
    assert_eq!(*p.autocomplete_done("search"), 5);
    assert_eq!(*p.area_slider("area"), 6);
    assert!(p.lookup("nothing").is_none());
    assert_eq!(p.find("close").style, 9);
    assert_eq!(p.get_all_click_actions(), vec!["close".to_string()]);
}

#[test]
fn state_can_be_changed_in_place() {
    let mut p = Panel::new(contents()).build_custom(bar(40, 0), None).0;
    *p.slider_mut("horiz scrollbar") = 55;
    assert_eq!(*p.slider("horiz scrollbar"), 55);
    *p.find_mut("mode") = 9;
    assert_eq!(*p.dropdown_value("mode"), 9);
    *p.find_mut("horiz scrollbar") = 12;
    assert_eq!(*p.slider("horiz scrollbar"), 12);
    assert!(p.is_checked("lights"));
    assert!(p.scrollable_x());
}

#[test]
fn replace_keeps_the_layout_of_the_replaced_widget() {
    let mut p = Panel::new(contents()).build_custom(None, bar(41, 0)).0;
    p.replace("street", leaf(WidgetKind::TextBox { line: "Oak Ave".to_string() }, 500).named("street"));
    assert_eq!(p.text_box("street"), "Oak Ave".to_string());
    assert_eq!(p.find("street").style, 3);
    assert!(p.scrollable_y());
    assert!(p.is_clipped());
    assert_eq!(p.top_level().len(), 11);
}

#[test]
fn replacing_a_widget_by_one_of_the_same_name_keeps_it_findable() {
    let mut p = Panel::new(contents()).build_custom(bar(40, 0), None).0;
    let before = p.top_level().find("lanes");
    p.replace("lanes", leaf(WidgetKind::Spinner { current: 1 }, 0).named("lanes"));
    assert_eq!(p.top_level().find("lanes"), before);
    assert_eq!(p.spinner("lanes"), 1);
    assert_eq!(p.find("lanes").style, 4);
}

#[test]
fn a_built_panel_is_then_handed_a_no_op_event() {
    let (p, then) = Panel::new(contents()).build_custom(bar(40, 0), None);
    assert_eq!(then, vec![PanelStep::NoOpEvent]);
    assert_eq!(p.event(true, false, false), vec![PanelStep::RunWidgets]);
    let (_, then) = Panel::new(contents()).build(5, None, None);
    assert_eq!(then, vec![PanelStep::NoOpEvent]);
}

#[test]
fn build_is_build_custom_on_the_restyled_contents() {
    let (a, then_a) = Panel::new(contents()).max_size(50, 60).build(88, bar(40, 1), bar(41, 2));
    let (b, then_b) =
        Panel::new(contents()).max_size(50, 60).with_top_style(88).build_custom(bar(40, 1), bar(41, 2));
    assert_eq!(then_a, then_b);
    assert_eq!(a.dims(), b.dims());
    assert_eq!(a.scrollable_x(), b.scrollable_x());
    assert_eq!(a.scrollable_y(), b.scrollable_y());
    assert_eq!(a.is_clipped(), b.is_clipped());
    let (ta, tb) = (a.top_level(), b.top_level());
    assert_eq!(ta.len(), tb.len());
    for i in 0..ta.len() {
        assert_eq!(ta.node(i).style, tb.node(i).style);
        assert_eq!(ta.node(i).depth, tb.node(i).depth);
        assert_eq!(ta.node(i).id, tb.node(i).id);
    }
    assert_eq!(a.get_all_click_actions(), b.get_all_click_actions());
}

#[test]
fn moving_a_scrollbar_keeps_it_a_scrollbar() {
    let mut p = Panel::new(contents()).build_custom(bar(40, 0), bar(41, 0)).0;
    *p.slider_mut("horiz scrollbar") = 30;
    *p.slider_mut("vert scrollbar") = 70;
    assert_eq!(*p.slider("horiz scrollbar"), 30);
    assert_eq!(*p.slider("vert scrollbar"), 70);
    assert!(p.is_clipped() && p.scrollable_x() && p.scrollable_y());
    assert_eq!(p.top_level().len(), 13);
}

#[test]
fn building_twice_gives_the_same_panel() {
    let (a, ta) = Panel::new(contents()).build(7, bar(40, 1), None);
    let (b, tb) = Panel::new(contents()).build(7, bar(40, 1), None);
    assert_eq!(ta, tb);
    assert_eq!(a.top_level().len(), b.top_level().len());
    for i in 0..a.top_level().len() {
        assert_eq!(a.top_level().node(i).id, b.top_level().node(i).id);
        assert_eq!(a.top_level().node(i).style, b.top_level().node(i).style);
    }
}

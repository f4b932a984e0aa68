use widgetry_panel::widget::{Widget, WidgetKind};

fn leaf(kind: WidgetKind<i32>, style: u32) -> Widget<u32, i32> {
    Widget::new(kind, style)
}

fn depths(w: &Widget<u32, i32>) -> Vec<usize> {
    let mut r = Vec::new();
    for i in 0..w.len() {
        r.push(w.node(i).depth);
    }
    r
}

fn sample() -> Widget<u32, i32> {
    // col [ "title" text, row [ "ok" button, "title" checkbox ], "count" spinner ]
    let row = Widget::container(
        20,
        vec![
            leaf(WidgetKind::Button { action: "ok".to_string() }, 21).named("ok"),
            leaf(WidgetKind::Checkbox { enabled: true }, 22).named("title"),
        ],
    );
    Widget::container(
        10,
        vec![
            leaf(WidgetKind::TextBox { line: "hello".to_string() }, 11).named("title"),
            row,
            leaf(WidgetKind::Spinner { current: -3 }, 12).named("count"),
        ],
    )
}

#[test]
fn container_lays_members_out_in_pre_order() {
    let w = sample();
    assert_eq!(w.len(), 6);
    assert_eq!(depths(&w), vec![0, 1, 1, 2, 2, 1]);
    assert_eq!(w.node(0).style, 10);
    assert!(matches!(w.node(0).kind, WidgetKind::Container));
    assert_eq!(w.node(2).style, 20);
    assert_eq!(w.node(5).style, 12);
}

#[test]
fn find_returns_the_first_match_in_pre_order() {
    let w = sample();
    assert_eq!(w.find("title"), Some(1));
    assert_eq!(w.find("ok"), Some(3));
    assert_eq!(w.find("count"), Some(5));
    assert_eq!(w.find("missing"), None);
    assert!(w.has_widget("count"));
    assert!(!w.has_widget("Count"));
}

#[test]
fn named_renames_the_top_widget_only() {
    let w = sample().named("root");
    assert_eq!(w.find("root"), Some(0));
    assert_eq!(w.find("title"), Some(1));
    assert_eq!(w.node(0).id.as_deref(), Some("root"));
}

#[test]
fn subtree_end_covers_the_members() {
    let w = sample();
    assert_eq!(w.subtree_end(0), 6);
    assert_eq!(w.subtree_end(1), 2);
    assert_eq!(w.subtree_end(2), 5);
    assert_eq!(w.subtree_end(3), 4);
    assert_eq!(w.subtree_end(5), 6);
}

#[test]
fn replace_keeps_the_old_style_and_swaps_the_subtree() {
    let mut w = sample().named("root");
    // the row is not named; name a widget inside it and replace the second "title"
    let new = Widget::container(
        99,
        vec![
            leaf(WidgetKind::Other(7), 30).named("a"),
            leaf(WidgetKind::Other(8), 31).named("b"),
        ],
    )
    .named("ok");
    w.replace("ok", new);
    // the button (depth 2, style 21) became a container with two members
    assert_eq!(w.len(), 8);
    assert_eq!(depths(&w), vec![0, 1, 1, 2, 3, 3, 2, 1]);
    assert_eq!(w.node(3).style, 21);
    assert!(matches!(w.node(3).kind, WidgetKind::Container));
    assert_eq!(w.node(4).style, 30);
    assert_eq!(w.find("b"), Some(5));
    assert_eq!(w.find("title"), Some(1));
    assert_eq!(w.subtree_end(3), 6);
    assert!(w.click_actions().is_empty());
}

#[test]
fn replace_of_the_top_widget_replaces_the_whole_tree() {
    let mut w = sample().named("root");
    w.replace("root", leaf(WidgetKind::Other(1), 50));
    assert_eq!(w.len(), 1);
    assert_eq!(w.node(0).style, 10);
    assert_eq!(w.node(0).id, None);
    assert_eq!(w.node(0).depth, 0);
}

#[test]
fn click_actions_are_listed_in_pre_order() {
    let w = Widget::container(
        0,
        vec![
            leaf(WidgetKind::Button { action: "save".to_string() }, 1),
            Widget::container(2, vec![leaf(WidgetKind::Button { action: "quit".to_string() }, 3)]),
            leaf(WidgetKind::Other(0), 4),
        ],
    );
    assert_eq!(w.click_actions(), vec!["save".to_string(), "quit".to_string()]);
    assert!(!w.has_duplicate_click_action());
}

#[test]
fn a_shared_action_is_a_duplicate() {
    let w = Widget::container(
        0,
        vec![
            leaf(WidgetKind::Button { action: "go".to_string() }, 1),
            leaf(WidgetKind::Button { action: "stop".to_string() }, 1),
            leaf(WidgetKind::Button { action: "go".to_string() }, 1),
        ],
    );
    assert_eq!(w.click_actions().len(), 3);
    assert!(w.has_duplicate_click_action());
}

#[test]
fn state_mut_and_slider_mut_change_state_in_place() {
    let mut w = Widget::container(0, vec![leaf(WidgetKind::Slider(5), 1), leaf(WidgetKind::Other(6), 2)]);
    *w.slider_mut(1) = 40;
    assert!(matches!(w.node(1).kind, WidgetKind::Slider(40)));
    *w.state_mut(2) = 60;
    assert!(matches!(w.node(2).kind, WidgetKind::Other(60)));
    *w.state_mut(1) = 41;
    assert!(matches!(w.node(1).kind, WidgetKind::Slider(41)));
    assert_eq!(w.len(), 3);
}

#[test]
fn with_top_style_restyles_the_top_widget() {
    let w = sample().with_top_style(77);
    assert_eq!(w.node(0).style, 77);
    assert_eq!(w.node(1).style, 11);
    assert_eq!(w.len(), 6);
}

use ninjutso::tray::{
    item_props, root_props, selected, Action, DbusMenu, IconState, MenuEntry, Properties, Property,
    SniItem,
};

fn menu() -> DbusMenu {
    DbusMenu {
        items: vec![
            MenuEntry::item(1, "Open Ninjutso", Action::OpenGui),
            MenuEntry::separator(2),
            MenuEntry::item(3, "Quit", Action::Quit),
        ],
        revision: 1,
    }
}

fn get<'a>(props: &'a Properties, name: &str) -> Option<&'a Property> {
    props.iter().find(|(key, _)| key == name).map(|(_, value)| value)
}

fn is_text(value: Option<&Property>, expected: &str) -> bool {
    matches!(value, Some(Property::Text(text)) if text == expected)
}

fn is_flag(value: Option<&Property>, expected: bool) -> bool {
    matches!(value, Some(Property::Flag(flag)) if *flag == expected)
}

#[test]
fn the_root_layout_carries_every_item() {
    let (_revision, node) = menu().get_layout(0, -1, Vec::new()).unwrap();
    assert_eq!(node.id, 0);
    assert!(is_text(get(&node.props, "children-display"), "submenu"));
    assert_eq!(node.children.len(), 3);
}

#[test]
fn a_layout_request_is_answered_for_what_was_asked_for() {
    let menu = menu();
    // Depth 0 is "this node's properties, no children".
    let (_, node) = menu.get_layout(0, 0, Vec::new()).unwrap();
    assert!(node.children.is_empty());

    // A subtree request gets that item, not the root relabelled.
    let (_, node) = menu.get_layout(3, -1, Vec::new()).unwrap();
    assert_eq!(node.id, 3);
    assert!(is_text(get(&node.props, "label"), "Quit"));
    assert!(node.children.is_empty());

    assert!(menu.get_layout(99, -1, Vec::new()).is_err());
}

#[test]
fn property_requests_are_filtered_as_asked() {
    let menu = menu();
    let wanted = vec!["label".to_string()];
    let (_, node) = menu.get_layout(0, -1, wanted.clone()).unwrap();
    assert_eq!(node.children.len(), 3);

    let groups = menu.get_group_properties(vec![1], wanted);
    assert_eq!(groups.len(), 1);
    assert_eq!(groups[0].0, 1);
    assert_eq!(groups[0].1.len(), 1, "only the property that was asked for");

    // No ids means everything, including the root.
    let all = menu.get_group_properties(Vec::new(), Vec::new());
    assert_eq!(all.len(), 4);
    assert_eq!(all[0].0, 0);
}

#[test]
fn an_unknown_property_is_an_error_not_an_empty_string() {
    let menu = menu();
    let label = menu.get_property(1, "label".into()).unwrap();
    assert!(is_text(Some(&label), "Open Ninjutso"));
    assert!(menu.get_property(1, "nonesuch".into()).is_err());
    assert!(menu.get_property(99, "label".into()).is_err());
}

#[test]
fn separators_and_items_carry_different_properties() {
    let separator = item_props(None);
    assert!(is_text(get(&separator, "type"), "separator"));
    assert!(get(&separator, "label").is_none());

    let item = item_props(Some("Quit"));
    assert!(is_text(get(&item, "label"), "Quit"));
    assert!(is_flag(get(&item, "enabled"), true));
}

#[test]
fn refusals_name_what_was_asked_for() {
    let menu = menu();
    assert_eq!(menu.get_layout(-7, 0, Vec::new()).unwrap_err(), "no menu item -7");
    assert_eq!(menu.get_property(99, "label".into()).unwrap_err(), "no menu item 99");
    assert_eq!(
        menu.get_property(0, "label".into()).unwrap_err(),
        "no property label"
    );
    let root = menu.get_property(0, "children-display".into()).unwrap();
    assert!(is_text(Some(&root), "submenu"));
}

#[test]
fn a_filter_keeps_nothing_that_was_not_asked_for() {
    let wanted = vec!["visible".to_string(), "nonesuch".to_string()];
    let kept = selected(item_props(Some("Quit")), &wanted);
    assert_eq!(kept.len(), 1);
    assert!(is_flag(get(&kept, "visible"), true));
    assert_eq!(selected(root_props(), &wanted).len(), 0);
    assert_eq!(selected(root_props(), &[]).len(), 1);
    let rows = menu().get_group_properties(vec![3, 0, 42], vec!["label".to_string()]);
    assert_eq!(rows.iter().map(|row| row.0).collect::<Vec<i32>>(), [0, 3]);
    assert_eq!(rows[0].1.len(), 0);
}

#[test]
fn only_a_click_on_an_item_asks_for_anything() {
    let menu = menu();
    assert_eq!(menu.event(1, "clicked"), Some(Action::OpenGui));
    assert_eq!(menu.event(3, "clicked"), Some(Action::Quit));
    assert_eq!(menu.event(2, "clicked"), None);
    assert_eq!(menu.event(99, "clicked"), None);
    assert_eq!(menu.event(1, "hovered"), None);
    assert!(!menu.about_to_show(0));
}

#[test]
fn a_themed_name_gives_way_to_pixmaps() {
    let item = SniItem {
        app_id: "app".to_string(),
        icon_name: "icon".to_string(),
    };
    let mut state = IconState::new();
    assert_eq!(item.icon_name(&state), "icon");
    state.set_pixmaps(vec![(1, 1, vec![0; 4])]);
    assert_eq!(item.icon_name(&state), "");
    assert!(state.set_tooltip("73%"));
    assert!(!state.set_tooltip("73%"));
    assert_eq!(
        item.tool_tip(&state),
        ("icon".to_string(), "Ninjutso".to_string(), "73%".to_string())
    );
    assert_eq!(item.activate(0, 0), Some(Action::OpenGui));
    assert_eq!(item.secondary_activate(0, 0), Some(Action::OpenGui));
    assert_eq!(item.context_menu(0, 0), None);
    assert_eq!(item.scroll(1, "vertical"), None);
}

use wield::capabilities::ToolSummary;
use wield::tray::{menu_action, tray_menu, MenuAction, MenuEntry, ToolItem};

fn summary(id: &str, title: &str, category: &str) -> ToolSummary {
    ToolSummary {
        id: id.into(),
        title: title.into(),
        keywords: vec![],
        category: category.into(),
        args: vec![],
        available: true,
        reason: None,
    }
}

fn fixture_tools() -> Vec<ToolSummary> {
    vec![
        summary("color.pick", "Pick a colour", "Capture"),
        summary("image.convert", "Convert image", "Convert"),
    ]
}

fn item_id(item: &ToolItem) -> &str {
    match item {
        ToolItem::Plain { id, .. } | ToolItem::Check { id, .. } => id,
    }
}

fn entry_id(entry: &MenuEntry) -> Option<&str> {
    match entry {
        MenuEntry::Item { id, .. } => Some(id),
        _ => None,
    }
}

#[test]
fn menu_groups_tools_by_category_and_adds_the_fixed_items() {
    let items = tray_menu(&fixture_tools(), false);
    // Two category submenus + separator + preferences + quit.
    assert_eq!(items.len(), 5);
    let MenuEntry::Submenu {
        title,
        items: capture_items,
    } = &items[0]
    else {
        panic!("expected the first item to be a submenu");
    };
    assert_eq!(title, "Capture");
    assert_eq!(capture_items.len(), 1);
    assert_eq!(item_id(&capture_items[0]), "tool:color.pick");
    let MenuEntry::Submenu {
        title,
        items: convert_items,
    } = &items[1]
    else {
        panic!("expected the second item to be a submenu");
    };
    assert_eq!(title, "Convert");
    assert_eq!(item_id(&convert_items[0]), "tool:image.convert");
    assert_eq!(items[2], MenuEntry::Separator);
    assert_eq!(entry_id(&items[3]), Some("preferences"));
    assert_eq!(entry_id(&items[4]), Some("quit"));
}

#[test]
fn empty_registry_still_has_preferences_and_quit() {
    let items = tray_menu(&[], false);
    assert_eq!(items.len(), 3); // separator, preferences, quit
    assert_eq!(entry_id(&items[1]), Some("preferences"));
    assert_eq!(entry_id(&items[2]), Some("quit"));
}

#[test]
fn keep_awake_renders_as_a_check_menu_item() {
    let mut tools = fixture_tools();
    tools.push(summary("keep.awake", "Keep awake", "Capture"));
    let items = tray_menu(&tools, false);
    let MenuEntry::Submenu {
        items: capture_items,
        ..
    } = &items[0]
    else {
        panic!("expected the first item to be a submenu");
    };
    assert_eq!(capture_items.len(), 2);
    assert_eq!(
        capture_items[1],
        ToolItem::Check {
            id: "tool:keep.awake".into(),
            title: "Keep awake".into(),
            checked: false
        }
    );
    let on = tray_menu(&tools, true);
    let MenuEntry::Submenu { items, .. } = &on[0] else {
        panic!("expected the first item to be a submenu");
    };
    assert!(matches!(items[1], ToolItem::Check { checked: true, .. }));
}

#[test]
fn categories_come_in_a_fixed_order() {
    let tools = vec![
        summary("keep.awake", "Keep awake", "Desktop"),
        summary("image.convert", "Convert image", "Convert"),
        summary("color.pick", "Pick a colour", "Capture"),
    ];
    let titles: Vec<String> = tray_menu(&tools, false)
        .iter()
        .filter_map(|e| match e {
            MenuEntry::Submenu { title, .. } => Some(title.clone()),
            _ => None,
        })
        .collect();
    assert_eq!(titles, vec!["Capture", "Convert", "Desktop"]);
}

#[test]
fn menu_ids_route_to_actions() {
    assert_eq!(
        menu_action("tool:image.convert"),
        MenuAction::SelectTool("image.convert".into())
    );
    assert_eq!(menu_action("preferences"), MenuAction::OpenSettings);
    assert_eq!(menu_action("quit"), MenuAction::Quit);
    assert_eq!(menu_action("other"), MenuAction::Unhandled("other".into()));
}

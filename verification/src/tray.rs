//! The tray icon's menu: one submenu per category that has tools, in a
//! fixed category order, then a separator and the Preferences and Quit
//! items; and what choosing a menu item does. Building the native menu is
//! the desktop shell's.

use crate::capabilities::ToolSummary;
use crate::text::{chars_of, chars_start_with, push_str, str_eq, string_from};
use vstd::prelude::*;

verus! {

/// The tool whose menu item is a check item showing whether it is on.
pub const KEEP_AWAKE_ID: &'static str = "keep.awake";

/// An item of a category's submenu.
#[derive(Debug, Clone, PartialEq, Eq)]
pub enum ToolItem {
    Plain { id: String, title: String },
    Check { id: String, title: String, checked: bool },
}

/// A top-level entry of the menu.
#[derive(Debug, Clone, PartialEq, Eq)]
pub enum MenuEntry {
    Submenu { title: String, items: Vec<ToolItem> },
    Separator,
    Item { id: String, title: String },
}

/// The content of a [`ToolItem`].
pub enum ToolItemView {
    Plain { id: Seq<char>, title: Seq<char> },
    Check { id: Seq<char>, title: Seq<char>, checked: bool },
}

/// The content of a [`MenuEntry`].
pub enum MenuEntryView {
    Submenu { title: Seq<char>, items: Seq<ToolItemView> },
    Separator,
    Item { id: Seq<char>, title: Seq<char> },
}

impl View for ToolItem {
    type V = ToolItemView;

    open spec fn view(&self) -> ToolItemView {
        match self {
            ToolItem::Plain { id, title } => ToolItemView::Plain { id: id@, title: title@ },
            ToolItem::Check { id, title, checked } => ToolItemView::Check {
                id: id@,
                title: title@,
                checked: *checked,
            },
        }
    }
}

/// The contents of some items.
pub open spec fn item_views(items: Seq<ToolItem>) -> Seq<ToolItemView> {
    Seq::new(items.len(), |i: int| items[i]@)
}

impl View for MenuEntry {
    type V = MenuEntryView;

    open spec fn view(&self) -> MenuEntryView {
        match self {
            MenuEntry::Submenu { title, items } => MenuEntryView::Submenu {
                title: title@,
                items: item_views(items@),
            },
            MenuEntry::Separator => MenuEntryView::Separator,
            MenuEntry::Item { id, title } => MenuEntryView::Item { id: id@, title: title@ },
        }
    }
}

/// The contents of some entries.
pub open spec fn entry_views(entries: Seq<MenuEntry>) -> Seq<MenuEntryView> {
    Seq::new(entries.len(), |i: int| entries[i]@)
}

/// The categories, in menu order.
pub open spec fn category_order() -> Seq<Seq<char>> {
    seq!["Capture"@, "Convert"@, "Desktop"@]
}

/// A tool's menu item: its id is `tool:` and the tool's id; the keep-awake
/// tool's is a check item, checked when keep-awake is on.
pub open spec fn item_of(t: ToolSummary, keep_awake_on: bool) -> ToolItemView {
    if t.id@ == KEEP_AWAKE_ID@ {
        ToolItemView::Check { id: "tool:"@ + t.id@, title: t.title@, checked: keep_awake_on }
    } else {
        ToolItemView::Plain { id: "tool:"@ + t.id@, title: t.title@ }
    }
}

/// The items of the tools in category `c`, in the tools' order.
pub open spec fn category_items(tools: Seq<ToolSummary>, c: Seq<char>, keep_awake_on: bool) -> Seq<
    ToolItemView,
>
    decreases tools.len(),
{
    if tools.len() == 0 {
        seq![]
    } else {
        let rest = category_items(tools.drop_last(), c, keep_awake_on);
        if tools.last().category@ == c {
            rest.push(item_of(tools.last(), keep_awake_on))
        } else {
            rest
        }
    }
}

/// A submenu for each of `cats` that has tools.
pub open spec fn submenus(tools: Seq<ToolSummary>, keep_awake_on: bool, cats: Seq<Seq<char>>) -> Seq<
    MenuEntryView,
>
    decreases cats.len(),
{
    if cats.len() == 0 {
        seq![]
    } else {
        let rest = submenus(tools, keep_awake_on, cats.drop_last());
        let items = category_items(tools, cats.last(), keep_awake_on);
        if items.len() == 0 {
            rest
        } else {
            rest.push(MenuEntryView::Submenu { title: cats.last(), items })
        }
    }
}

/// The whole menu.
pub open spec fn menu_spec(tools: Seq<ToolSummary>, keep_awake_on: bool) -> Seq<MenuEntryView> {
    submenus(tools, keep_awake_on, category_order()) + seq![
        MenuEntryView::Separator,
        MenuEntryView::Item { id: "preferences"@, title: "Preferences"@ },
        MenuEntryView::Item { id: "quit"@, title: "Quit"@ },
    ]
}

fn item_for(t: &ToolSummary, keep_awake_on: bool) -> (i: ToolItem)
    ensures
        i@ == item_of(*t, keep_awake_on),
{
    let mut id = String::new();
    push_str(&mut id, "tool:");
    push_str(&mut id, t.id.as_str());
    if str_eq(t.id.as_str(), KEEP_AWAKE_ID) {
        ToolItem::Check { id, title: t.title.clone(), checked: keep_awake_on }
    } else {
        ToolItem::Plain { id, title: t.title.clone() }
    }
}

fn items_in(tools: &[ToolSummary], c: &str, keep_awake_on: bool) -> (r: Vec<ToolItem>)
    ensures
        item_views(r@) == category_items(tools@, c@, keep_awake_on),
{
    let mut r: Vec<ToolItem> = Vec::new();
    let mut k: usize = 0;
    while k < tools.len()
        invariant
            k <= tools@.len(),
            item_views(r@) == category_items(tools@.take(k as int), c@, keep_awake_on),
        decreases tools.len() - k,
    {
        assert(tools@.take(k + 1).drop_last() =~= tools@.take(k as int));
        assert(tools@.take(k + 1).last() == tools@[k as int]);
        if str_eq(tools[k].category.as_str(), c) {
            let ghost before = r@;
            r.push(item_for(&tools[k], keep_awake_on));
            assert(item_views(r@) =~= item_views(before).push(item_of(tools@[k as int], keep_awake_on)));
        }
        k += 1;
    }
    assert(tools@.take(k as int) =~= tools@);
    r
}

/// The tray menu for `tools`, with the keep-awake item checked when
/// keep-awake is on.
pub fn tray_menu(tools: &[ToolSummary], keep_awake_on: bool) -> (m: Vec<MenuEntry>)
    ensures
        entry_views(m@) == menu_spec(tools@, keep_awake_on),
{
    let mut m: Vec<MenuEntry> = Vec::new();
    let cats = ["Capture", "Convert", "Desktop"];
    let ghost order = category_order();
    proof {
        assert(cats@[0]@ == order[0] && cats@[1]@ == order[1] && cats@[2]@ == order[2]);
    }
    let mut c: usize = 0;
    while c < 3
        invariant
            c <= 3,
            order == category_order(),
            forall|q: int| 0 <= q < 3 ==> #[trigger] cats@[q]@ == order[q],
            entry_views(m@) == submenus(tools@, keep_awake_on, order.take(c as int)),
        decreases 3 - c,
    {
        assert(order.take(c + 1).drop_last() =~= order.take(c as int));
        assert(order.take(c + 1).last() == order[c as int]);
        let items = items_in(tools, cats[c], keep_awake_on);
        if items.len() > 0 {
            let ghost before = m@;
            let title = cats[c].to_owned();
            m.push(MenuEntry::Submenu { title, items });
            assert(entry_views(m@) =~= entry_views(before).push(
                MenuEntryView::Submenu { title: order[c as int], items: category_items(tools@, order[c as int], keep_awake_on) },
            ));
        } else {
            assert(item_views(items@).len() == 0);
        }
        c += 1;
    }
    assert(order.take(3) =~= order);
    let ghost before = m@;
    m.push(MenuEntry::Separator);
    m.push(MenuEntry::Item { id: "preferences".to_owned(), title: "Preferences".to_owned() });
    m.push(MenuEntry::Item { id: "quit".to_owned(), title: "Quit".to_owned() });
    assert(entry_views(m@) =~= menu_spec(tools@, keep_awake_on));
    m
}

/// What choosing a menu item does.
#[derive(Debug, Clone, PartialEq, Eq)]
pub enum MenuAction {
    /// Show the palette with this tool selected.
    SelectTool(String),
    /// Show the palette's settings view.
    OpenSettings,
    Quit,
    /// An id the menu does not have.
    Unhandled(String),
}

/// The action for a menu item id: `tool:<id>` selects that tool;
/// `preferences` opens the settings; `quit` quits.
pub fn menu_action(id: &str) -> (a: MenuAction)
    ensures
        id@.len() >= 5 && id@.take(5) == "tool:"@ ==> (a matches MenuAction::SelectTool(t) && t@
            == id@.skip(5)),
        !(id@.len() >= 5 && id@.take(5) == "tool:"@) && id@ == "preferences"@ ==> a is OpenSettings,
        !(id@.len() >= 5 && id@.take(5) == "tool:"@) && id@ == "quit"@ ==> a is Quit,
        !(id@.len() >= 5 && id@.take(5) == "tool:"@) && id@ != "preferences"@ && id@ != "quit"@
            ==> (a matches MenuAction::Unhandled(u) && u@ == id@),
{
    let c = chars_of(id);
    let prefix = chars_of("tool:");
    proof {
        reveal_strlit("tool:");
    }
    if chars_start_with(&c, &prefix) {
        let rest = string_from(vstd::slice::slice_subrange(c.as_slice(), 5, c.len()));
        assert(c@.subrange(5, c@.len() as int) =~= id@.skip(5));
        return MenuAction::SelectTool(rest);
    }
    proof {
        reveal_strlit("preferences");
        reveal_strlit("quit");
        assert("preferences"@.len() != "quit"@.len());
    }
    if str_eq(id, "preferences") {
        MenuAction::OpenSettings
    } else if str_eq(id, "quit") {
        MenuAction::Quit
    } else {
        MenuAction::Unhandled(id.to_owned())
    }
}

} // verus!

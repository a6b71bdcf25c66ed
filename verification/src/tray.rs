//! The tray icon's menu.

use crate::archive::{lemma_replaced_char, lowercase, to_lowercase};
use crate::config::{TrayConfig, TrayMenuItem, TraySettings};
use crate::text::{concat3, decimal, maybe, replace, replaced, same_text, to_decimal};
use vstd::prelude::*;
use vstd::string::*;

verus! {

/// One entry of the tray menu, ready to be shown. A click on it is reported by
/// its id.
#[derive(Debug)]
pub enum MenuEntry {
    Separator,
    Item { id: String, label: String, enabled: bool },
    /// An entry with a mark in front of it.
    Checked { id: String, label: String, enabled: bool },
}

/// One entry of the tray menu as plain sequences.
#[verifier::ext_equal]
pub ghost enum EntryView {
    Separator,
    Item { id: Seq<char>, label: Seq<char>, enabled: bool },
    Checked { id: Seq<char>, label: Seq<char>, enabled: bool },
}

impl View for MenuEntry {
    type V = EntryView;

    open spec fn view(&self) -> EntryView {
        match self {
            MenuEntry::Separator => EntryView::Separator,
            MenuEntry::Item { id, label, enabled } => EntryView::Item {
                id: id@,
                label: label@,
                enabled: *enabled,
            },
            MenuEntry::Checked { id, label, enabled } => EntryView::Checked {
                id: id@,
                label: label@,
                enabled: *enabled,
            },
        }
    }
}

/// A menu as plain sequences.
pub open spec fn menu_view(menu: Seq<MenuEntry>) -> Seq<EntryView> {
    menu.map_values(|entry: MenuEntry| entry@)
}

/// The id made of the place of an entry and its label in lower case.
pub open spec fn made_id(place: int, label: Seq<char>) -> Seq<char> {
    "item_"@ + decimal(place) + seq!['_'] + replaced(label, " "@, "_"@)
}

/// The id of an entry: its own, or one made of its place and its label.
pub open spec fn entry_id(item: TrayMenuItem, place: int) -> Seq<char> {
    match maybe(item.id) {
        Some(id) => id,
        None => made_id(place, lowercase(item.label@)),
    }
}

/// What is shown for an entry with the given id.
pub open spec fn shown_as(item: TrayMenuItem, id: Seq<char>) -> EntryView {
    if item.separator {
        EntryView::Separator
    } else if item.checked {
        EntryView::Checked { id, label: item.label@, enabled: item.enabled }
    } else {
        EntryView::Item { id, label: item.label@, enabled: item.enabled }
    }
}

/// What is shown for an entry.
pub open spec fn shown(item: TrayMenuItem, place: int) -> EntryView {
    shown_as(item, entry_id(item, place))
}

/// What is shown for all entries.
pub open spec fn all_shown(items: Seq<TrayMenuItem>) -> Seq<EntryView> {
    Seq::new(items.len(), |i: int| shown(items[i], i))
}

/// True for an entry that leaves the app.
pub open spec fn is_exit(item: TrayMenuItem, place: int) -> bool {
    !item.separator && lowercase(entry_id(item, place)) == "exit"@
}

/// True where an entry leaves the app already.
pub open spec fn has_exit(items: Seq<TrayMenuItem>) -> bool {
    exists|i: int| 0 <= i < items.len() && #[trigger] is_exit(items[i], i)
}

/// The entry that leaves the app.
pub open spec fn exit_entry() -> EntryView {
    EntryView::Item { id: "exit"@, label: "Exit"@, enabled: true }
}

/// A menu with an exit at the end, unless it has one.
pub open spec fn with_exit(menu: Seq<EntryView>, exit: bool) -> Seq<EntryView> {
    if exit {
        menu
    } else {
        menu.push(exit_entry())
    }
}

/// The menu of a tray: the entries of the settings, with an exit at the end
/// where none of them is one; or the two default entries.
pub open spec fn menu_of(settings: Option<TraySettings>) -> Seq<EntryView> {
    match settings {
        Some(settings) => with_exit(all_shown(settings.menu@), has_exit(settings.menu@)),
        None => seq![
            EntryView::Item { id: "show"@, label: "Show"@, enabled: true },
            exit_entry(),
        ],
    }
}

/// The id made of the place of an entry and its label in lower case.
pub fn make_id(place: usize, label: &str) -> (id: String)
    ensures
        id@ == made_id(place as int, label@),
{
    proof {
        reveal_strlit(" ");
        reveal_strlit("_");
        assert("_"@ == seq!['_']);
    }
    let name = replace(label, " ", "_");
    let number = to_decimal(place as u64);
    let mut id = concat3("item_", number.as_str(), "_");
    id.append(name.as_str());
    id
}

fn id_of(item: &TrayMenuItem, place: usize) -> (id: String)
    ensures
        id@ == entry_id(*item, place as int),
{
    match &item.id {
        Some(id) => id.as_str().to_owned(),
        None => {
            let lower = to_lowercase(item.label.as_str());
            make_id(place, lower.as_str())
        },
    }
}

/// What is shown for an entry with the given id.
pub fn menu_entry(item: &TrayMenuItem, id: String) -> (entry: MenuEntry)
    ensures
        entry@ == shown_as(*item, id@),
{
    let label = item.label.as_str().to_owned();
    if item.separator {
        MenuEntry::Separator
    } else if item.checked {
        MenuEntry::Checked { id, label, enabled: item.enabled }
    } else {
        MenuEntry::Item { id, label, enabled: item.enabled }
    }
}

/// Adds an exit at the end of a menu, unless it has one.
pub fn finish_menu(menu: Vec<MenuEntry>, exit: bool) -> (r: Vec<MenuEntry>)
    ensures
        menu_view(r@) == with_exit(menu_view(menu@), exit),
{
    let mut menu = menu;
    let ghost done = menu@;
    if !exit {
        menu.push(plain_item("exit", "Exit"));
        assert(menu_view(menu@) == menu_view(done).push(exit_entry()));
    }
    menu
}

fn plain_item(id: &str, label: &str) -> (entry: MenuEntry)
    ensures
        entry@ == (EntryView::Item { id: id@, label: label@, enabled: true }),
{
    MenuEntry::Item { id: id.to_owned(), label: label.to_owned(), enabled: true }
}

/// Builds the menu of the tray.
pub fn build_menu(tray: &TrayConfig) -> (menu: Vec<MenuEntry>)
    ensures
        menu_view(menu@) == menu_of(
            match *tray {
                TrayConfig::Settings(settings) => Some(settings),
                TrayConfig::Enabled(_) => None,
            },
        ),
{
    let mut menu: Vec<MenuEntry> = Vec::new();
    match tray {
        TrayConfig::Settings(settings) => {
            let items = &settings.menu;
            let mut exit = false;
            let mut i: usize = 0;
            while i < items.len()
                invariant
                    i <= items.len(),
                    menu_view(menu@) == all_shown(items@).take(i as int),
                    exit == exists|k: int| 0 <= k < i && #[trigger] is_exit(items@[k], k),
                decreases items.len() - i,
            {
                let item = &items[i];
                let ghost done = menu@;
                let id = id_of(item, i);
                if !item.separator {
                    let lower = to_lowercase(id.as_str());
                    if same_text(lower.as_str(), "exit") {
                        assert(is_exit(items@[i as int], i as int));
                        exit = true;
                    }
                }
                menu.push(menu_entry(item, id));
                assert(menu@.last()@ == shown(items@[i as int], i as int));
                assert(menu_view(menu@) == menu_view(done).push(shown(items@[i as int], i as int)));
                assert(all_shown(items@).take(i + 1) == all_shown(items@).take(i as int).push(
                    shown(items@[i as int], i as int),
                ));
                i += 1;
            }
            assert(all_shown(items@).take(i as int) == all_shown(items@));
            menu = finish_menu(menu, exit);
        },
        TrayConfig::Enabled(_) => {
            menu.push(plain_item("show", "Show"));
            menu.push(plain_item("exit", "Exit"));
            assert(menu_view(menu@) =~= menu_of(None));
        },
    }
    menu
}

/// The id of an entry that can be clicked.
pub open spec fn clickable(entry: EntryView) -> Option<Seq<char>> {
    match entry {
        EntryView::Separator => None,
        EntryView::Item { id, .. } => Some(id),
        EntryView::Checked { id, .. } => Some(id),
    }
}

/// Every menu has an entry whose id is `exit` in some letter case. A menu that
/// names none in any letter case gets one with just that id, the one that ends
/// the app.
pub proof fn law_every_menu_names_an_exit(settings: Option<TraySettings>)
    ensures
        exists|i: int|
            0 <= i < menu_of(settings).len() && (clickable(#[trigger] menu_of(settings)[i])
                matches Some(id) && (id == "exit"@ || lowercase(id) == "exit"@)),
        (settings matches Some(settings) ==> !has_exit(settings.menu@)) ==> exists|i: int|
            0 <= i < menu_of(settings).len() && clickable(#[trigger] menu_of(settings)[i]) == Some(
                "exit"@,
            ),
{
    let menu = menu_of(settings);
    match settings {
        Some(settings) => {
            if has_exit(settings.menu@) {
                let i = choose|i: int|
                    0 <= i < settings.menu@.len() && #[trigger] is_exit(settings.menu@[i], i);
                assert(menu[i] == shown(settings.menu@[i], i));
                assert(clickable(menu[i]) is Some);
            } else {
                assert(clickable(menu[menu.len() - 1]) == Some("exit"@));
            }
        },
        None => {
            assert(clickable(menu[1]) == Some("exit"@));
        },
    }
}

/// True where the app has a tray icon: its settings want one, or its window
/// goes there when it is closed.
pub fn tray_enabled(tray: &Option<TrayConfig>, minimize_to_tray: bool) -> (r: bool)
    ensures
        r == (minimize_to_tray || (*tray matches Some(tray) && tray != TrayConfig::Enabled(false))),
{
    match tray {
        Some(tray) => tray.is_enabled() || minimize_to_tray,
        None => minimize_to_tray,
    }
}

/// The text that the tray icon shows: that of its settings, or the name of the
/// app.
pub fn tray_tooltip(tray: &Option<TrayConfig>, name: &str) -> (r: String)
    ensures
        r@ == match *tray {
            Some(TrayConfig::Settings(settings)) => match maybe(settings.tooltip) {
                Some(tooltip) => tooltip,
                None => name@,
            },
            _ => name@,
        },
{
    match tray {
        Some(TrayConfig::Settings(settings)) => match &settings.tooltip {
            Some(tooltip) => tooltip.as_str().to_owned(),
            None => name.to_owned(),
        },
        _ => name.to_owned(),
    }
}

/// An entry keeps the id that it has. One without is named after its place and its
/// label in lower case, with underscores for blanks.
pub proof fn law_entry_ids(item: TrayMenuItem, place: int)
    ensures
        item.id matches Some(id) ==> entry_id(item, place) == id@,
        item.id is None ==> {
            let label = lowercase(item.label@);
            entry_id(item, place) == "item_"@ + decimal(place) + "_"@ + Seq::new(
                label.len(),
                |i: int|
                    if label[i] == ' ' {
                        '_'
                    } else {
                        label[i]
                    },
            )
        },
{
    reveal_strlit(" ");
    reveal_strlit("_");
    assert(" "@ =~= seq![' ']);
    assert("_"@ =~= seq!['_']);
    let label = lowercase(item.label@);
    lemma_replaced_char(label, ' ', '_');
    assert(replaced(label, " "@, "_"@) =~= Seq::new(
        label.len(),
        |i: int|
            if label[i] == ' ' {
                '_'
            } else {
                label[i]
            },
    ));
}

/// The menu shows each entry of the settings at its place: a separator as one, and
/// any other under its id with its label, its mark and whether it can be clicked.
pub proof fn law_entries_are_shown_in_order(settings: TraySettings, i: int)
    requires
        0 <= i < settings.menu@.len(),
    ensures
        ({
            let item = settings.menu@[i];
            let entry = menu_of(Some(settings))[i];
            let id = entry_id(item, i);
            &&& item.separator ==> entry == EntryView::Separator
            &&& !item.separator && item.checked ==> entry == (EntryView::Checked {
                id,
                label: item.label@,
                enabled: item.enabled,
            })
            &&& !item.separator && !item.checked ==> entry == (EntryView::Item {
                id,
                label: item.label@,
                enabled: item.enabled,
            })
        }),
{
}

/// An exit stands at the end of a menu that has none among its entries, and nothing
/// is added to one that has. A tray without a menu of its own shows the app or ends
/// it.
pub proof fn law_exit_is_added_where_it_is_missing(settings: TraySettings, i: int)
    ensures
        0 <= i < settings.menu@.len() && !settings.menu@[i].separator && lowercase(
            entry_id(settings.menu@[i], i),
        ) == "exit"@ ==> menu_of(Some(settings)).len() == settings.menu@.len(),
        (forall|k: int|
            0 <= k < settings.menu@.len() ==> (#[trigger] settings.menu@[k]).separator || lowercase(
                entry_id(settings.menu@[k], k),
            ) != "exit"@) ==> menu_of(Some(settings)).len() == settings.menu@.len() + 1 && menu_of(
            Some(settings),
        ).last() == (EntryView::Item { id: "exit"@, label: "Exit"@, enabled: true }),
        menu_of(None) == seq![
            EntryView::Item { id: "show"@, label: "Show"@, enabled: true },
            EntryView::Item { id: "exit"@, label: "Exit"@, enabled: true },
        ],
{
    let items = settings.menu@;
    if 0 <= i < items.len() && !items[i].separator && lowercase(entry_id(items[i], i)) == "exit"@ {
        assert(is_exit(items[i], i));
    }
}

/// Every entry but a separator can be clicked, and is known by its id.
pub proof fn law_clicks_name_the_id(id: Seq<char>, label: Seq<char>, enabled: bool)
    ensures
        clickable(EntryView::Separator) is None,
        clickable((EntryView::Item { id, label, enabled })) == Some(id),
        clickable((EntryView::Checked { id, label, enabled })) == Some(id),
{
}

} // verus!

//! What a StatusNotifierItem and its dbusmenu answer.
//!
//! The caller drives the reading and serves the answers over D-Bus; this module
//! only works them out.

use vstd::prelude::*;
use vstd::string::*;

use crate::text::{among, push_signed, same, signed, strings};

verus! {

pub const SNI_IFACE: &'static str = "org.kde.StatusNotifierItem";

pub const WATCHER: &'static str = "org.kde.StatusNotifierWatcher";

pub const ITEM_PATH: &'static str = "/StatusNotifierItem";

pub const MENU_PATH: &'static str = "/MenuBar";

/// What a click on the tray asks the application to do.
#[derive(Debug, Clone, Copy, PartialEq, Eq, Structural)]
pub enum Action {
    OpenGui,
    Refresh,
    Quit,
}

// -- menu rows ----------------------------------------------------------------

/// One menu row. A row without a label renders as a separator.
#[derive(Debug, Clone)]
pub struct MenuEntry {
    pub id: i32,
    pub label: Option<String>,
    pub action: Option<Action>,
}

/// A [`MenuEntry`] as contracts see it.
pub struct MenuEntryView {
    pub id: i32,
    pub label: Option<Seq<char>>,
    pub action: Option<Action>,
}

impl View for MenuEntry {
    type V = MenuEntryView;

    open spec fn view(&self) -> MenuEntryView {
        MenuEntryView {
            id: self.id,
            label: match self.label {
                Some(label) => Some(label@),
                None => None,
            },
            action: self.action,
        }
    }
}

impl MenuEntry {
    pub fn item(id: i32, label: &str, action: Action) -> (entry: Self)
        ensures
            entry@ == (MenuEntryView { id, label: Some(label@), action: Some(action) }),
    {
        MenuEntry { id, label: Some(label.to_owned()), action: Some(action) }
    }

    pub fn separator(id: i32) -> (entry: Self)
        ensures
            entry@ == (MenuEntryView { id, label: None, action: None }),
    {
        MenuEntry { id, label: None, action: None }
    }
}

// -- properties ---------------------------------------------------------------

/// The value of a menu property.
#[derive(Debug, Clone)]
pub enum Property {
    Text(String),
    Flag(bool),
}

/// A [`Property`] as contracts see it.
pub enum PropertyView {
    Text(Seq<char>),
    Flag(bool),
}

impl View for Property {
    type V = PropertyView;

    open spec fn view(&self) -> PropertyView {
        match self {
            Property::Text(text) => PropertyView::Text(text@),
            Property::Flag(flag) => PropertyView::Flag(*flag),
        }
    }
}

/// The properties of a menu node, by name. No name stands there twice.
pub type Properties = Vec<(String, Property)>;

pub open spec fn properties_view(props: Seq<(String, Property)>) -> Seq<
    (Seq<char>, PropertyView),
> {
    props.map_values(|prop: (String, Property)| (prop.0@, prop.1@))
}

/// The properties of a row: a separator says that it is one, an item carries
/// its label.
pub open spec fn row_properties(label: Option<Seq<char>>) -> Seq<(Seq<char>, PropertyView)> {
    match label {
        None => seq![
            ("type"@, PropertyView::Text("separator"@)),
            ("visible"@, PropertyView::Flag(true)),
        ],
        Some(label) => seq![
            ("label"@, PropertyView::Text(label)),
            ("enabled"@, PropertyView::Flag(true)),
            ("visible"@, PropertyView::Flag(true)),
        ],
    }
}

pub open spec fn optional_text(text: Option<&str>) -> Option<Seq<char>> {
    match text {
        Some(text) => Some(text@),
        None => None,
    }
}

pub fn item_props(label: Option<&str>) -> (props: Properties)
    ensures
        properties_view(props@) == row_properties(optional_text(label)),
{
    let mut props: Vec<(String, Property)> = Vec::new();
    match label {
        None => {
            props.push(("type".to_owned(), Property::Text("separator".to_owned())));
            props.push(("visible".to_owned(), Property::Flag(true)));
        },
        Some(label) => {
            props.push(("label".to_owned(), Property::Text(label.to_owned())));
            props.push(("enabled".to_owned(), Property::Flag(true)));
            props.push(("visible".to_owned(), Property::Flag(true)));
        },
    }
    assert(properties_view(props@) =~= row_properties(optional_text(label)));
    props
}

/// The root node's own properties. It is a menu, not an item, so it carries
/// only the hint that it has children.
pub open spec fn root_properties() -> Seq<(Seq<char>, PropertyView)> {
    seq![("children-display"@, PropertyView::Text("submenu"@))]
}

pub fn root_props() -> (props: Properties)
    ensures
        properties_view(props@) == root_properties(),
{
    let mut props: Vec<(String, Property)> = Vec::new();
    props.push(("children-display".to_owned(), Property::Text("submenu".to_owned())));
    assert(properties_view(props@) =~= root_properties());
    props
}

/// The properties that were asked for; an empty list means all of them.
pub open spec fn asked_for(
    props: Seq<(Seq<char>, PropertyView)>,
    wanted: Seq<Seq<char>>,
) -> Seq<(Seq<char>, PropertyView)> {
    if wanted.len() == 0 {
        props
    } else {
        props.filter(|prop: (Seq<char>, PropertyView)| wanted.contains(prop.0))
    }
}

/// Keep only the properties the caller asked for; an empty list means all of
/// them, which is what dbusmenu says and what Plasma relies on.
pub fn selected(props: Properties, wanted: &[String]) -> (kept: Properties)
    ensures
        properties_view(kept@) == asked_for(properties_view(props@), strings(wanted@)),
{
    if wanted.len() == 0 {
        return props;
    }
    let ghost all = properties_view(props@);
    let ghost pick = |prop: (Seq<char>, PropertyView)| strings(wanted@).contains(prop.0);
    let mut left = props;
    let mut kept: Vec<(String, Property)> = Vec::new();
    let ghost mut gone: int = 0;
    reveal(Seq::filter);
    assert(properties_view(kept@) =~= all.take(0).filter(pick));
    while left.len() > 0
        invariant
            pick == |prop: (Seq<char>, PropertyView)| strings(wanted@).contains(prop.0),
            0 <= gone,
            gone + left@.len() == all.len(),
            properties_view(left@) == all.skip(gone),
            properties_view(kept@) == all.take(gone).filter(pick),
        decreases left.len(),
    {
        let ghost rest = left@;
        let ghost so_far = kept@;
        let ghost longer = all.take(gone + 1);
        let prop = left.remove(0);
        proof {
            assert(properties_view(rest)[0] == (prop.0@, prop.1@));
            assert(all[gone] == (prop.0@, prop.1@));
            assert(longer.drop_last() =~= all.take(gone));
            assert(longer.last() == (prop.0@, prop.1@));
            assert(properties_view(left@) =~= properties_view(rest).skip(1));
            assert(all.skip(gone).skip(1) =~= all.skip(gone + 1));
            reveal(Seq::filter);
            gone = gone + 1;
        }
        if among(wanted, prop.0.as_str()) {
            kept.push(prop);
            assert(properties_view(kept@) =~= properties_view(so_far).push((prop.0@, prop.1@)));
        }
    }
    assert(all.take(gone) =~= all);
    kept
}

// -- the menu -----------------------------------------------------------------

/// A dbusmenu node: its id, its properties, and its children. The menu is flat,
/// so a child has none of its own.
#[derive(Debug, Clone)]
pub struct MenuNode {
    pub id: i32,
    pub props: Properties,
    pub children: Vec<(i32, Properties)>,
}

/// A node without its children, as contracts see it.
pub type RowView = (i32, Seq<(Seq<char>, PropertyView)>);

pub open spec fn rows_view(rows: Seq<(i32, Properties)>) -> Seq<RowView> {
    rows.map_values(|row: (i32, Properties)| (row.0, properties_view(row.1@)))
}

/// A [`MenuNode`] as contracts see it.
pub struct MenuNodeView {
    pub id: i32,
    pub props: Seq<(Seq<char>, PropertyView)>,
    pub children: Seq<RowView>,
}

impl View for MenuNode {
    type V = MenuNodeView;

    open spec fn view(&self) -> MenuNodeView {
        MenuNodeView {
            id: self.id,
            props: properties_view(self.props@),
            children: rows_view(self.children@),
        }
    }
}

/// A flat menu: the root, whose id is 0, has every row as a child.
pub struct DbusMenu {
    pub items: Vec<MenuEntry>,
    pub revision: u32,
}

pub open spec fn entries_view(items: Seq<MenuEntry>) -> Seq<MenuEntryView> {
    items.map_values(|entry: MenuEntry| entry@)
}

/// The first row with an id.
pub open spec fn row_with(items: Seq<MenuEntryView>, id: i32) -> Option<MenuEntryView>
    decreases items.len(),
{
    if items.len() == 0 {
        None
    } else if items[0].id == id {
        Some(items[0])
    } else {
        row_with(items.skip(1), id)
    }
}

impl MenuEntryView {
    /// A row with the properties that were asked for.
    pub open spec fn row(self, wanted: Seq<Seq<char>>) -> RowView {
        (self.id, asked_for(row_properties(self.label), wanted))
    }
}

/// An id was asked about: every one is where none is named.
pub open spec fn id_wanted(ids: Seq<i32>, id: i32) -> bool {
    ids.len() == 0 || ids.contains(id)
}

/// The rows that were asked about, with the properties that were asked for.
pub open spec fn rows_asked(
    items: Seq<MenuEntryView>,
    ids: Seq<i32>,
    wanted: Seq<Seq<char>>,
) -> Seq<RowView>
    decreases items.len(),
{
    if items.len() == 0 {
        Seq::empty()
    } else {
        let before = rows_asked(items.drop_last(), ids, wanted);
        if id_wanted(ids, items.last().id) {
            before.push(items.last().row(wanted))
        } else {
            before
        }
    }
}

/// The layout of a node: the root with its rows -- or, at depth 0, without -- or
/// one row.
pub open spec fn layout(
    items: Seq<MenuEntryView>,
    parent_id: i32,
    recursion_depth: i32,
    wanted: Seq<Seq<char>>,
) -> Result<MenuNodeView, Seq<char>> {
    if parent_id == 0 {
        Ok(
            MenuNodeView {
                id: 0,
                props: root_properties(),
                children: if recursion_depth == 0 {
                    Seq::empty()
                } else {
                    rows_asked(items, Seq::empty(), wanted)
                },
            },
        )
    } else {
        match row_with(items, parent_id) {
            Some(entry) => Ok(
                MenuNodeView {
                    id: entry.row(wanted).0,
                    props: entry.row(wanted).1,
                    children: Seq::empty(),
                },
            ),
            None => Err("no menu item "@ + signed(parent_id as int)),
        }
    }
}

/// The properties of the nodes that were asked about, the root first.
pub open spec fn group(
    items: Seq<MenuEntryView>,
    ids: Seq<i32>,
    wanted: Seq<Seq<char>>,
) -> Seq<RowView> {
    let root = if id_wanted(ids, 0) {
        seq![(0i32, asked_for(root_properties(), wanted))]
    } else {
        Seq::empty()
    };
    root + rows_asked(items, ids, wanted)
}

/// The value of the first property with a name.
pub open spec fn property_named(props: Seq<(Seq<char>, PropertyView)>, name: Seq<char>) -> Option<
    PropertyView,
>
    decreases props.len(),
{
    if props.len() == 0 {
        None
    } else if props[0].0 == name {
        Some(props[0].1)
    } else {
        property_named(props.skip(1), name)
    }
}

/// One property of one node.
pub open spec fn property(items: Seq<MenuEntryView>, id: i32, name: Seq<char>) -> Result<
    PropertyView,
    Seq<char>,
> {
    let missing = Err::<PropertyView, Seq<char>>("no property "@ + name);
    if id == 0 {
        match property_named(root_properties(), name) {
            Some(value) => Ok(value),
            None => missing,
        }
    } else {
        match row_with(items, id) {
            None => Err("no menu item "@ + signed(id as int)),
            Some(entry) => match property_named(row_properties(entry.label), name) {
                Some(value) => Ok(value),
                None => missing,
            },
        }
    }
}

/// What an event on a node asks for: a click on a row, the row's action.
pub open spec fn action_for(items: Seq<MenuEntryView>, id: i32, event: Seq<char>) -> Option<
    Action,
> {
    if event == "clicked"@ {
        match row_with(items, id) {
            Some(entry) => entry.action,
            None => None,
        }
    } else {
        None
    }
}

/// A result whose error is a text, as contracts see it.
pub open spec fn answer_view<R: View>(result: Result<R, String>) -> Result<R::V, Seq<char>> {
    match result {
        Ok(value) => Ok(value@),
        Err(text) => Err(text@),
    }
}

fn no_menu_item(id: i32) -> (text: String)
    ensures
        text@ == "no menu item "@ + signed(id as int),
{
    let mut text = "no menu item ".to_owned();
    push_signed(&mut text, id as i64);
    text
}

fn wants(ids: &Vec<i32>, id: i32) -> (answer: bool)
    ensures
        answer == id_wanted(ids@, id),
{
    if ids.len() == 0 {
        return true;
    }
    let mut i: usize = 0;
    while i < ids.len()
        invariant
            i <= ids@.len(),
            forall|j: int| 0 <= j < i ==> ids@[j] != id,
        decreases ids.len() - i,
    {
        if ids[i] == id {
            return true;
        }
        i += 1;
    }
    false
}

fn find_property(props: Properties, name: &str) -> (value: Option<Property>)
    ensures
        match value {
            Some(value) => property_named(properties_view(props@), name@) == Some(value@),
            None => property_named(properties_view(props@), name@) is None,
        },
{
    let ghost all = properties_view(props@);
    let mut left = props;
    let mut i: usize = 0;
    assert(all.skip(0) =~= all);
    while i < left.len()
        invariant
            i <= left@.len(),
            left == props,
            all == properties_view(props@),
            property_named(all, name@) == property_named(all.skip(i as int), name@),
        decreases left.len() - i,
    {
        assert(all.skip(i as int).skip(1) =~= all.skip(i + 1));
        if same(left[i].0.as_str(), name) {
            let (_, value) = left.remove(i);
            return Some(value);
        }
        i += 1;
    }
    None
}

impl MenuEntry {
    fn label_text(&self) -> (label: Option<&str>)
        ensures
            optional_text(label) == self@.label,
    {
        match &self.label {
            Some(label) => Some(label.as_str()),
            None => None,
        }
    }

    fn row(&self, wanted: &[String]) -> (row: (i32, Properties))
        ensures
            (row.0, properties_view(row.1@)) == self@.row(strings(wanted@)),
    {
        (self.id, selected(item_props(self.label_text()), wanted))
    }
}

impl DbusMenu {
    fn find(&self, id: i32) -> (entry: Option<&MenuEntry>)
        ensures
            match entry {
                Some(entry) => row_with(entries_view(self.items@), id) == Some(entry@),
                None => row_with(entries_view(self.items@), id) is None,
            },
    {
        let ghost all = entries_view(self.items@);
        let mut i: usize = 0;
        assert(all.skip(0) =~= all);
        while i < self.items.len()
            invariant
                i <= self.items@.len(),
                all == entries_view(self.items@),
                row_with(all, id) == row_with(all.skip(i as int), id),
            decreases self.items.len() - i,
        {
            assert(all.skip(i as int).skip(1) =~= all.skip(i + 1));
            if self.items[i].id == id {
                return Some(&self.items[i]);
            }
            i += 1;
        }
        None
    }

    fn rows(&self, ids: &Vec<i32>, wanted: &[String]) -> (rows: Vec<(i32, Properties)>)
        ensures
            rows_view(rows@) == rows_asked(
                entries_view(self.items@),
                ids@,
                strings(wanted@),
            ),
    {
        let ghost all = entries_view(self.items@);
        let mut rows: Vec<(i32, Properties)> = Vec::new();
        let mut i: usize = 0;
        assert(rows_view(rows@) =~= rows_asked(all.take(0), ids@, strings(wanted@)));
        while i < self.items.len()
            invariant
                i <= self.items@.len(),
                all == entries_view(self.items@),
                rows_view(rows@) == rows_asked(all.take(i as int), ids@, strings(wanted@)),
            decreases self.items.len() - i,
        {
            let ghost before = rows@;
            assert(all.take(i + 1).drop_last() =~= all.take(i as int));
            if wants(ids, self.items[i].id) {
                let row = self.items[i].row(wanted);
                rows.push(row);
                assert(rows_view(rows@) =~= rows_view(before).push(
                    (row.0, properties_view(row.1@)),
                ));
            }
            i += 1;
        }
        assert(all.take(i as int) =~= all);
        rows
    }

    /// The layout of a node and the revision of the menu. `recursion_depth` of 0
    /// means properties only.
    pub fn get_layout(
        &self,
        parent_id: i32,
        recursion_depth: i32,
        property_names: Vec<String>,
    ) -> (result: Result<(u32, MenuNode), String>)
        ensures
            match result {
                Ok((revision, node)) => revision == self.revision && layout(
                    entries_view(self.items@),
                    parent_id,
                    recursion_depth,
                    strings(property_names@),
                ) == Ok::<MenuNodeView, Seq<char>>(node@),
                Err(text) => layout(
                    entries_view(self.items@),
                    parent_id,
                    recursion_depth,
                    strings(property_names@),
                ) == Err::<MenuNodeView, Seq<char>>(text@),
            },
    {
        if parent_id == 0 {
            let everyone: Vec<i32> = Vec::new();
            let children: Vec<(i32, Properties)> = if recursion_depth == 0 {
                Vec::new()
            } else {
                self.rows(&everyone, property_names.as_slice())
            };
            assert(everyone@ =~= Seq::<i32>::empty());
            let node = MenuNode { id: 0, props: root_props(), children };
            assert(recursion_depth == 0 ==> node@.children =~= Seq::<RowView>::empty());
            return Ok((self.revision, node));
        }
        match self.find(parent_id) {
            Some(entry) => {
                let (id, props) = entry.row(property_names.as_slice());
                let node = MenuNode { id, props, children: Vec::new() };
                assert(node@.children =~= Seq::<RowView>::empty());
                Ok((self.revision, node))
            },
            None => Err(no_menu_item(parent_id)),
        }
    }

    /// The properties of several nodes. No ids means every node -- including the
    /// root, which a host may ask about by id 0.
    pub fn get_group_properties(&self, ids: Vec<i32>, property_names: Vec<String>) -> (rows: Vec<
        (i32, Properties),
    >)
        ensures
            rows_view(rows@) == group(
                entries_view(self.items@),
                ids@,
                strings(property_names@),
            ),
    {
        let mut rows: Vec<(i32, Properties)> = Vec::new();
        let ghost wanted = strings(property_names@);
        assert(rows_view(rows@) =~= Seq::<RowView>::empty());
        if wants(&ids, 0) {
            rows.push((0, selected(root_props(), property_names.as_slice())));
            assert(rows_view(rows@) =~= seq![(0i32, asked_for(root_properties(), wanted))]);
        }
        let mut others = self.rows(&ids, property_names.as_slice());
        let ghost first = rows@;
        let ghost rest = others@;
        rows.append(&mut others);
        assert(rows_view(rows@) =~= rows_view(first) + rows_view(rest));
        rows
    }

    /// One property of one node.
    pub fn get_property(&self, id: i32, name: String) -> (result: Result<Property, String>)
        ensures
            answer_view(result) == property(entries_view(self.items@), id, name@),
    {
        let props = if id == 0 {
            root_props()
        } else {
            match self.find(id) {
                Some(entry) => item_props(entry.label_text()),
                None => {
                    return Err(no_menu_item(id));
                },
            }
        };
        match find_property(props, name.as_str()) {
            Some(value) => Ok(value),
            None => {
                let mut text = "no property ".to_owned();
                text.append(name.as_str());
                Err(text)
            },
        }
    }

    /// What an event on a node asks the application to do.
    pub fn event(&self, id: i32, event_id: &str) -> (action: Option<Action>)
        ensures
            action == action_for(entries_view(self.items@), id, event_id@),
    {
        if !same(event_id, "clicked") {
            return None;
        }
        match self.find(id) {
            Some(entry) => entry.action,
            None => None,
        }
    }

    /// The menu never changes as it is about to be shown.
    pub fn about_to_show(&self, _id: i32) -> (changed: bool)
        ensures
            !changed,
    {
        false
    }
}

// -- the item -----------------------------------------------------------------

/// An ARGB32 icon: width, height, pixels in network byte order.
pub type Pixmap = (i32, i32, Vec<u8>);

/// Icon and tooltip.
pub struct IconState {
    pub pixmaps: Vec<Pixmap>,
    pub tooltip: String,
}

impl IconState {
    /// No icon and no tooltip yet.
    pub fn new() -> (state: Self)
        ensures
            state.pixmaps@.len() == 0,
            state.tooltip@ == Seq::<char>::empty(),
    {
        IconState { pixmaps: Vec::new(), tooltip: String::new() }
    }

    /// Change the tooltip; whether there is anything to tell the host.
    pub fn set_tooltip(&mut self, text: &str) -> (changed: bool)
        ensures
            final(self).pixmaps == old(self).pixmaps,
            final(self).tooltip@ == text@,
            changed == (old(self).tooltip@ != text@),
    {
        if same(self.tooltip.as_str(), text) {
            return false;
        }
        self.tooltip = text.to_owned();
        true
    }

    /// Replace the icon.
    pub fn set_pixmaps(&mut self, pixmaps: Vec<Pixmap>)
        ensures
            final(self).pixmaps == pixmaps,
            final(self).tooltip == old(self).tooltip,
    {
        self.pixmaps = pixmaps;
    }
}

/// A StatusNotifierItem.
pub struct SniItem {
    pub app_id: String,
    pub icon_name: String,
}

impl SniItem {
    /// A click opens the window.
    pub fn activate(&self, _x: i32, _y: i32) -> (action: Option<Action>)
        ensures
            action == Some(Action::OpenGui),
    {
        Some(Action::OpenGui)
    }

    /// A middle click opens the window too.
    pub fn secondary_activate(&self, _x: i32, _y: i32) -> (action: Option<Action>)
        ensures
            action == Some(Action::OpenGui),
    {
        Some(Action::OpenGui)
    }

    /// The host shows the menu by itself.
    pub fn context_menu(&self, _x: i32, _y: i32) -> (action: Option<Action>)
        ensures
            action is None,
    {
        None
    }

    /// Scrolling does nothing.
    pub fn scroll(&self, _delta: i32, _orientation: &str) -> (action: Option<Action>)
        ensures
            action is None,
    {
        None
    }

    /// The themed icon's name. Empty while there are pixmaps: a themed name
    /// would otherwise win.
    pub fn icon_name(&self, state: &IconState) -> (name: String)
        ensures
            name@ == if state.pixmaps@.len() == 0 {
                self.icon_name@
            } else {
                Seq::<char>::empty()
            },
    {
        if state.pixmaps.len() == 0 {
            self.icon_name.clone()
        } else {
            String::new()
        }
    }

    /// The tooltip: icon, title and text.
    pub fn tool_tip(&self, state: &IconState) -> (tip: (String, String, String))
        ensures
            tip.0@ == self.icon_name@,
            tip.1@ == "Ninjutso"@,
            tip.2@ == state.tooltip@,
    {
        (self.icon_name.clone(), "Ninjutso".to_owned(), state.tooltip.clone())
    }
}

// -- laws ---------------------------------------------------------------------

/// A row without a label is a separator and nothing else, one with a label
/// carries it.
pub proof fn lemma_rows_differ(label: Seq<char>)
    ensures
        property_named(row_properties(None), "type"@) == Some(PropertyView::Text("separator"@)),
        property_named(row_properties(None), "label"@) is None,
        property_named(row_properties(Some(label)), "label"@) == Some(PropertyView::Text(label)),
        property_named(row_properties(Some(label)), "enabled"@) == Some(PropertyView::Flag(true)),
        property_named(row_properties(Some(label)), "type"@) is None,
{
    reveal_strlit("type");
    reveal_strlit("visible");
    reveal_strlit("label");
    reveal_strlit("enabled");
    assert("type"@.len() == 4 && "visible"@.len() == 7 && "label"@.len() == 5 && "enabled"@.len()
        == 7);
    assert("enabled"@[0] != "visible"@[0]);
    reveal_with_fuel(property_named, 4);
    assert(row_properties(None).skip(1) =~= seq![("visible"@, PropertyView::Flag(true))]);
    let item = row_properties(Some(label));
    assert(item.skip(1).skip(1) =~= seq![("visible"@, PropertyView::Flag(true))]);
    assert(item.skip(1)[0].0 == "enabled"@);
    assert(item.skip(1).skip(1).skip(1) =~= Seq::empty());
    assert(row_properties(None).skip(1).skip(1) =~= Seq::empty());
}

/// Asking for properties gives those that were asked for and no others; asking
/// for none in particular gives all.
pub proof fn lemma_asked_for(
    props: Seq<(Seq<char>, PropertyView)>,
    wanted: Seq<Seq<char>>,
    prop: (Seq<char>, PropertyView),
)
    ensures
        asked_for(props, wanted).contains(prop) <==> props.contains(prop) && (wanted.len() == 0
            || wanted.contains(prop.0)),
{
    broadcast use vstd::seq_lib::group_filter_ensures;

    if wanted.len() > 0 {
        let pick = |prop: (Seq<char>, PropertyView)| wanted.contains(prop.0);
        let kept = props.filter(pick);
        if kept.contains(prop) {
            props.lemma_filter_contains_rev(pick, prop);
            assert(pick(kept[kept.index_of(prop)]));
        }
        if props.contains(prop) && wanted.contains(prop.0) {
            assert(pick(props[props.index_of(prop)]));
            assert(kept.contains(props[props.index_of(prop)]));
        }
    }
}

/// An id that no row has is an error, not an empty answer, and clicking it does
/// nothing.
pub proof fn lemma_unknown_id(
    items: Seq<MenuEntryView>,
    id: i32,
    depth: i32,
    wanted: Seq<Seq<char>>,
    name: Seq<char>,
    event: Seq<char>,
)
    requires
        id != 0,
        forall|i: int| 0 <= i < items.len() ==> (#[trigger] items[i]).id != id,
    ensures
        layout(items, id, depth, wanted) is Err,
        property(items, id, name) is Err,
        action_for(items, id, event) is None,
{
    lemma_no_row(items, id);
}

/// An id that no row has is not found.
pub proof fn lemma_no_row(items: Seq<MenuEntryView>, id: i32)
    requires
        forall|i: int| 0 <= i < items.len() ==> (#[trigger] items[i]).id != id,
    ensures
        row_with(items, id) is None,
    decreases items.len(),
{
    if items.len() > 0 {
        let rest = items.skip(1);
        assert forall|i: int| 0 <= i < rest.len() implies (#[trigger] rest[i]).id != id by {
            assert(items[i + 1].id != id);
        }
        lemma_no_row(rest, id);
    }
}

/// The root's layout carries every row, in order, and asking about no ids in
/// particular is asking about the root and every row.
pub proof fn lemma_every_row(items: Seq<MenuEntryView>, depth: i32, wanted: Seq<Seq<char>>)
    requires
        depth != 0,
    ensures
        layout(items, 0, depth, wanted) matches Ok(node) && node.children == items.map_values(
            |entry: MenuEntryView| entry.row(wanted),
        ),
        group(items, Seq::empty(), wanted).len() == items.len() + 1,
        group(items, Seq::empty(), wanted)[0].0 == 0,
{
    lemma_all_rows(items, wanted);
}

proof fn lemma_all_rows(items: Seq<MenuEntryView>, wanted: Seq<Seq<char>>)
    ensures
        rows_asked(items, Seq::empty(), wanted) == items.map_values(
            |entry: MenuEntryView| entry.row(wanted),
        ),
    decreases items.len(),
{
    let f = |entry: MenuEntryView| entry.row(wanted);
    if items.len() > 0 {
        lemma_all_rows(items.drop_last(), wanted);
        assert(items.map_values(f) =~= items.drop_last().map_values(f).push(f(items.last())));
    } else {
        assert(items.map_values(f) =~= Seq::empty());
    }
}

/// A row is found by its id: a click on it asks for that row's action, any other
/// event for nothing, its properties are its own, and asking for its layout
/// gives the row itself, without children.
pub proof fn lemma_row_by_id(
    items: Seq<MenuEntryView>,
    i: int,
    depth: i32,
    wanted: Seq<Seq<char>>,
    event: Seq<char>,
)
    requires
        0 <= i < items.len(),
        items[i].id != 0,
        forall|j: int| 0 <= j < i ==> (#[trigger] items[j]).id != items[i].id,
    ensures
        action_for(items, items[i].id, "clicked"@) == items[i].action,
        event != "clicked"@ ==> action_for(items, items[i].id, event) is None,
        match items[i].label {
            Some(label) => {
                &&& property(items, items[i].id, "label"@) == Ok::<_, Seq<char>>(
                    PropertyView::Text(label),
                )
                &&& property(items, items[i].id, "enabled"@) == Ok::<_, Seq<char>>(
                    PropertyView::Flag(true),
                )
                &&& property(items, items[i].id, "type"@) == Err::<PropertyView, _>(
                    "no property "@ + "type"@,
                )
            },
            None => {
                &&& property(items, items[i].id, "type"@) == Ok::<_, Seq<char>>(
                    PropertyView::Text("separator"@),
                )
                &&& property(items, items[i].id, "label"@) == Err::<PropertyView, _>(
                    "no property "@ + "label"@,
                )
            },
        },
        layout(items, items[i].id, depth, wanted) matches Ok(node) && node.id == items[i].id
            && node.children.len() == 0 && shows_row(items[i], wanted, node.props),
{
    lemma_first_row(items, i);
    if let Some(label) = items[i].label {
        lemma_rows_differ(label);
    } else {
        lemma_rows_differ(Seq::empty());
    }
    lemma_shows_row(items[i], wanted);
}

proof fn lemma_first_row(items: Seq<MenuEntryView>, i: int)
    requires
        0 <= i < items.len(),
        forall|j: int| 0 <= j < i ==> (#[trigger] items[j]).id != items[i].id,
    ensures
        row_with(items, items[i].id) == Some(items[i]),
    decreases i,
{
    if i > 0 {
        assert(items[0].id != items[i].id);
        let rest = items.skip(1);
        assert forall|j: int| 0 <= j < i - 1 implies (#[trigger] rest[j]).id != rest[i - 1].id by {
            assert(items[j + 1].id != items[i].id);
        }
        lemma_first_row(rest, i - 1);
    }
}

/// A property was asked for: every one is where none is named.
pub open spec fn is_asked(wanted: Seq<Seq<char>>, name: Seq<char>) -> bool {
    wanted.len() == 0 || wanted.contains(name)
}

/// The properties are those of the row that were asked for, and no others: the
/// label of an item, which is enabled, or that a separator is one. All are
/// visible.
pub open spec fn shows_row(
    entry: MenuEntryView,
    wanted: Seq<Seq<char>>,
    props: Seq<(Seq<char>, PropertyView)>,
) -> bool {
    forall|prop: (Seq<char>, PropertyView)| #[trigger]
        props.contains(prop) <==> is_asked(wanted, prop.0) && (match entry.label {
            Some(label) => prop == ("label"@, PropertyView::Text(label)) || prop == (
                "enabled"@,
                PropertyView::Flag(true),
            ),
            None => prop == ("type"@, PropertyView::Text("separator"@)),
        } || prop == ("visible"@, PropertyView::Flag(true)))
}

proof fn lemma_shows_row(entry: MenuEntryView, wanted: Seq<Seq<char>>)
    ensures
        entry.row(wanted).0 == entry.id,
        shows_row(entry, wanted, entry.row(wanted).1),
{
    let props = row_properties(entry.label);
    assert forall|prop: (Seq<char>, PropertyView)| #[trigger]
        entry.row(wanted).1.contains(prop) <==> is_asked(wanted, prop.0) && (match entry.label {
            Some(label) => prop == ("label"@, PropertyView::Text(label)) || prop == (
                "enabled"@,
                PropertyView::Flag(true),
            ),
            None => prop == ("type"@, PropertyView::Text("separator"@)),
        } || prop == ("visible"@, PropertyView::Flag(true))) by {
        lemma_asked_for(props, wanted, prop);
        assert(props.contains(props[0]) && props.contains(props[1]));
        assert(entry.label is Some ==> props.contains(props[2]));
    }
}

/// The root's layout shows every row in its place, under its id, with what was
/// asked about it -- or none, where no depth was asked for. The root itself says
/// that it has rows below it, whatever was asked.
pub proof fn lemma_root(
    items: Seq<MenuEntryView>,
    depth: i32,
    wanted: Seq<Seq<char>>,
    name: Seq<char>,
)
    ensures
        layout(items, 0, depth, wanted) matches Ok(node) && node.id == 0 && node.props == seq![
            ("children-display"@, PropertyView::Text("submenu"@)),
        ] && (depth == 0 ==> node.children.len() == 0) && (depth != 0 ==> node.children.len()
            == items.len() && forall|i: int|
            0 <= i < items.len() ==> (#[trigger] node.children[i]).0 == items[i].id && shows_row(
                items[i],
                wanted,
                node.children[i].1,
            )),
        property(items, 0, name) == if name == "children-display"@ {
            Ok::<_, Seq<char>>(PropertyView::Text("submenu"@))
        } else {
            Err("no property "@ + name)
        },
{
    lemma_all_rows(items, wanted);
    assert forall|i: int| 0 <= i < items.len() implies (#[trigger] items[i]).row(wanted).0
        == items[i].id && shows_row(items[i], wanted, items[i].row(wanted).1) by {
        lemma_shows_row(items[i], wanted);
    }
    reveal_with_fuel(property_named, 2);
    assert(root_properties().skip(1) =~= Seq::empty());
}

/// What is not there is named in the refusal.
pub proof fn lemma_missing_row(
    items: Seq<MenuEntryView>,
    id: i32,
    depth: i32,
    wanted: Seq<Seq<char>>,
    name: Seq<char>,
)
    requires
        id != 0,
        forall|i: int| 0 <= i < items.len() ==> (#[trigger] items[i]).id != id,
    ensures
        layout(items, id, depth, wanted) == Err::<MenuNodeView, _>(
            "no menu item "@ + signed(id as int),
        ),
        property(items, id, name) == Err::<PropertyView, _>("no menu item "@ + signed(id as int)),
{
    lemma_no_row(items, id);
}

/// Asking about ids gives no others than those that were asked about, each with
/// what was asked about it.
pub proof fn lemma_group(
    items: Seq<MenuEntryView>,
    ids: Seq<i32>,
    wanted: Seq<Seq<char>>,
    k: int,
) -> (i: int)
    requires
        0 <= k < group(items, ids, wanted).len(),
    ensures
        ids.len() == 0 || ids.contains(group(items, ids, wanted)[k].0),
        k == 0 && group(items, ids, wanted)[k].0 == 0 || 0 <= i < items.len() && items[i].id
            == group(items, ids, wanted)[k].0 && shows_row(
            items[i],
            wanted,
            group(items, ids, wanted)[k].1,
        ),
{
    let rows = rows_asked(items, ids, wanted);
    let lead = group(items, ids, wanted).len() - rows.len();
    if k >= lead {
        lemma_rows_asked(items, ids, wanted);
        let row = rows[k - lead];
        assert(group(items, ids, wanted)[k] == row);
        choose|i: int|
            0 <= i < items.len() && items[i].id == row.0 && #[trigger] shows_row(
                items[i],
                wanted,
                row.1,
            )
    } else {
        0
    }
}

/// Asking about a row's id, or about none in particular, gives that row.
pub proof fn lemma_in_group(
    items: Seq<MenuEntryView>,
    ids: Seq<i32>,
    wanted: Seq<Seq<char>>,
    i: int,
) -> (k: int)
    requires
        0 <= i < items.len(),
        ids.len() == 0 || ids.contains(items[i].id),
    ensures
        0 <= k < group(items, ids, wanted).len(),
        group(items, ids, wanted)[k].0 == items[i].id,
        shows_row(items[i], wanted, group(items, ids, wanted)[k].1),
{
    let rows = rows_asked(items, ids, wanted);
    let lead = group(items, ids, wanted).len() - rows.len();
    lemma_rows_asked(items, ids, wanted);
    let entry = items[i];
    let k = choose|k: int|
        0 <= k < rows.len() && rows[k].0 == entry.id && shows_row(
            entry,
            wanted,
            #[trigger] rows[k].1,
        );
    assert(group(items, ids, wanted)[k + lead] == rows[k]);
    k + lead
}

/// Asking about the root, or about none in particular, gives the root first. It
/// says that it has rows below it, where that was asked.
pub proof fn lemma_root_in_group(
    items: Seq<MenuEntryView>,
    ids: Seq<i32>,
    wanted: Seq<Seq<char>>,
    prop: (Seq<char>, PropertyView),
)
    requires
        ids.len() == 0 || ids.contains(0),
    ensures
        group(items, ids, wanted).len() > 0,
        group(items, ids, wanted)[0].0 == 0,
        group(items, ids, wanted)[0].1.contains(prop) <==> is_asked(wanted, prop.0) && prop == (
            "children-display"@,
            PropertyView::Text("submenu"@),
        ),
{
    lemma_asked_for(root_properties(), wanted, prop);
    assert(root_properties().contains(root_properties()[0]));
    assert(group(items, ids, wanted)[0] == (0i32, asked_for(root_properties(), wanted)));
}

#[verifier::spinoff_prover]
#[verifier::rlimit(30)]
proof fn lemma_rows_asked(items: Seq<MenuEntryView>, ids: Seq<i32>, wanted: Seq<Seq<char>>)
    ensures
        forall|k: int|
            0 <= k < rows_asked(items, ids, wanted).len() ==> {
                let row = #[trigger] rows_asked(items, ids, wanted)[k];
                (ids.len() == 0 || ids.contains(row.0)) && exists|i: int|
                    0 <= i < items.len() && items[i].id == row.0 && #[trigger] shows_row(
                        items[i],
                        wanted,
                        row.1,
                    )
            },
        forall|i: int|
            0 <= i < items.len() && (ids.len() == 0 || ids.contains(items[i].id)) ==> exists|k: int|
                0 <= k < rows_asked(items, ids, wanted).len() && rows_asked(items, ids, wanted)[k].0
                    == items[i].id && shows_row(
                    #[trigger] items[i],
                    wanted,
                    #[trigger] rows_asked(items, ids, wanted)[k].1,
                ),
    decreases items.len(),
{
    if items.len() > 0 {
        let fewer = items.drop_last();
        let before = rows_asked(fewer, ids, wanted);
        let rows = rows_asked(items, ids, wanted);
        lemma_rows_asked(fewer, ids, wanted);
        lemma_shows_row(items.last(), wanted);
        assert forall|k: int| 0 <= k < rows.len() implies {
            let row = #[trigger] rows[k];
            (ids.len() == 0 || ids.contains(row.0)) && exists|i: int|
                0 <= i < items.len() && items[i].id == row.0 && #[trigger] shows_row(
                    items[i],
                    wanted,
                    row.1,
                )
        } by {
            if k < before.len() {
                assert(rows[k] == before[k]);
                let i = choose|i: int|
                    0 <= i < fewer.len() && fewer[i].id == before[k].0 && #[trigger] shows_row(
                        fewer[i],
                        wanted,
                        before[k].1,
                    );
                assert(shows_row(items[i], wanted, rows[k].1));
            } else {
                assert(shows_row(items[items.len() - 1], wanted, rows[k].1));
            }
        }
        assert forall|i: int|
            0 <= i < items.len() && (ids.len() == 0 || ids.contains(
                items[i].id,
            )) implies exists|k: int|
            0 <= k < rows.len() && rows[k].0 == items[i].id && shows_row(
                #[trigger] items[i],
                wanted,
                #[trigger] rows[k].1,
            ) by {
            if i < fewer.len() {
                assert(fewer[i] == items[i]);
                let k = choose|k: int|
                    0 <= k < before.len() && before[k].0 == fewer[i].id && shows_row(
                        fewer[i],
                        wanted,
                        #[trigger] before[k].1,
                    );
                assert(rows[k] == before[k]);
                assert(shows_row(items[i], wanted, rows[k].1));
            } else {
                assert(shows_row(items[i], wanted, rows[rows.len() - 1].1));
            }
        }
    }
}

} // verus!

//! What a frame shows, as plain values for the drawing code to lay out.

use crate::app::AppState;
use crate::app::NavState;
use crate::app::FOCUS_COMMANDS;
use crate::config::keys_of;
use crate::config::lookup;
use crate::config::Catalog;
use crate::config::Config;
use crate::config::Text;
use crate::session::shown;
use crate::ui::get_filtered_connections;
use crate::ui::highlight_search;
use crate::ui::match_spans;
use crate::ui::pieces_from;
use crate::ui::pieces_of;
use crate::ui::Entry;
use crate::ui::Piece;
use crate::ui::Segment;
use vstd::prelude::*;
use vstd::utf8::encode_utf8;

verus! {

/// One line of the command pane.
pub struct Row {
    /// The command name.
    pub name: String,
    /// The command line behind the name; `None` where the catalog holds
    /// none, and the line then shows the bare name.
    pub description: Option<String>,
    /// The name cut into plain and highlighted pieces, where matches are
    /// to be shown.
    pub highlight: Option<Vec<Segment>>,
}

/// The mathematical content of a [`Row`].
pub struct RowModel {
    pub name: Text,
    pub description: Option<Text>,
    pub highlight: Option<Seq<Piece>>,
}

impl View for Row {
    type V = RowModel;

    open spec fn view(&self) -> RowModel {
        RowModel {
            name: self.name@,
            description: match self.description {
                Some(line) => Some(line@),
                None => None,
            },
            highlight: match self.highlight {
                Some(segments) => Some(pieces_of(segments@)),
                None => None,
            },
        }
    }
}

/// The contents of a sequence of rows.
pub open spec fn rows_view(rows: Seq<Row>) -> Seq<RowModel> {
    rows.map_values(|r: Row| r@)
}

/// A frame: both panes and the cursor of each.
pub struct Screen {
    /// The group names, in catalog order.
    pub groups: Vec<String>,
    /// The lines of the command pane, one for each visible entry.
    pub rows: Vec<Row>,
    /// The line to mark in the group pane.
    pub group_cursor: Option<usize>,
    /// The line to mark in the command pane.
    pub command_cursor: Option<usize>,
}

/// An optional index as an optional mathematical integer.
pub open spec fn index_of_cursor(cursor: Option<usize>) -> Option<int> {
    match cursor {
        Some(i) => Some(i as int),
        None => None,
    }
}

/// The command line that the catalog stores for an entry.
pub open spec fn description_of(catalog: Catalog, entry: Entry) -> Option<Text> {
    match lookup(catalog, entry.0) {
        Some(group) => lookup(group, entry.1),
        None => None,
    }
}

/// Matches are shown only in search mode with a query typed.
pub open spec fn shows_matches(nav: NavState) -> bool {
    nav.search_active && nav.search_query.len() > 0
}

/// The row for one visible entry: its name, its command line, and the
/// pieces of the name where matches are shown and the entry has a line.
pub open spec fn row_of(catalog: Catalog, nav: NavState, entry: Entry) -> RowModel {
    let description = description_of(catalog, entry);
    RowModel {
        name: entry.1,
        description,
        highlight: if description.is_some() && shows_matches(nav) {
            Some(
                pieces_from(
                    match_spans(entry.1, nav.search_query),
                    0,
                    encode_utf8(entry.1).len() as int,
                ),
            )
        } else {
            None
        },
    }
}

/// The rows for a list of entries.
pub open spec fn rows_of(catalog: Catalog, nav: NavState, entries: Seq<Entry>) -> Seq<RowModel> {
    entries.map_values(|e: Entry| row_of(catalog, nav, e))
}

/// The line marked in the group pane: while browsing the selected group;
/// in search mode the group of the selected entry, once a query is typed
/// and the selection indexes an entry.
pub open spec fn group_cursor(catalog: Catalog, nav: NavState) -> Option<int> {
    if !nav.search_active {
        Some(nav.selected_group as int)
    } else if nav.search_query.len() > 0 && nav.current_selection < shown(catalog, nav).len() {
        keys_of(catalog).index_of_first(shown(catalog, nav)[nav.current_selection as int].0)
    } else {
        None
    }
}

/// The line marked in the command pane: the selection, while the focus is
/// on the commands and, in search mode, a query is typed.
pub open spec fn command_cursor(nav: NavState) -> Option<int> {
    if nav.focus == 1 && (!nav.search_active || nav.search_query.len() > 0) {
        Some(nav.current_selection as int)
    } else {
        None
    }
}

/// Builds the row for one visible entry.
fn build_row(config: &Config, app: &AppState, group_name: &String, name: &String) -> (r: Row)
    ensures
        r@ == row_of(config@, app@, (group_name@, name@)),
{
    let description = match config.group(group_name) {
        Some(group) => match group.command(name) {
            Some(line) => Some(line.clone()),
            None => None,
        },
        None => None,
    };
    let highlight = if description.is_some() && app.search_mode
        && !app.search_query.as_str().is_empty() {
        Some(highlight_search(name.as_str(), app.search_query.as_str()))
    } else {
        None
    };
    Row { name: name.clone(), description, highlight }
}

/// Builds the rows of the command pane for the visible list `entries`.
pub fn build_rows(config: &Config, app: &AppState, entries: &Vec<(String, String)>) -> (r: Vec<Row>)
    ensures
        rows_view(r@) == rows_of(config@, app@, entries.deep_view()),
{
    let mut rows: Vec<Row> = Vec::new();
    let mut i: usize = 0;
    while i < entries.len()
        invariant
            i <= entries@.len(),
            rows@.len() == i,
            forall|k: int|
                0 <= k < i ==> (#[trigger] rows@[k])@ == row_of(
                    config@,
                    app@,
                    (entries@[k].0@, entries@[k].1@),
                ),
        decreases entries@.len() - i,
    {
        let row = build_row(config, app, &entries[i].0, &entries[i].1);
        rows.push(row);
        i += 1;
    }
    assert(rows_view(rows@) =~= rows_of(config@, app@, entries.deep_view()));
    rows
}

/// Tells which line of the group pane to mark, given the visible list.
fn find_group_cursor(config: &Config, app: &AppState, entries: &Vec<(String, String)>) -> (r:
    Option<usize>)
    requires
        entries.deep_view() == shown(config@, app@),
    ensures
        index_of_cursor(r) == group_cursor(config@, app@),
{
    assert(entries.deep_view().len() == entries@.len());
    if !app.search_mode {
        Some(app.selected_group)
    } else if !app.search_query.as_str().is_empty() && app.current_selection < entries.len() {
        let group_name = &entries[app.current_selection].0;
        assert(entries.deep_view()[app.current_selection as int].0 == group_name@);
        config.group_index(group_name)
    } else {
        None
    }
}

/// Computes what the next frame shows: the group names, the rows of the
/// visible list, and the line to mark in each pane.
pub fn screen(config: &Config, app: &AppState) -> (r: Screen)
    ensures
        r.groups.deep_view() == keys_of(config@),
        rows_view(r.rows@) == rows_of(config@, app@, shown(config@, app@)),
        index_of_cursor(r.group_cursor) == group_cursor(config@, app@),
        index_of_cursor(r.command_cursor) == command_cursor(app@),
{
    let groups = config.group_names();
    let names = groups.as_slice();
    let entries = get_filtered_connections(config, names, app);
    proof {
        assert(names.deep_view() =~= groups.deep_view());
    }
    let rows = build_rows(config, app, &entries);
    let group_cursor = find_group_cursor(config, app, &entries);
    let command_cursor = if app.focus == FOCUS_COMMANDS && (!app.search_mode
        || !app.search_query.as_str().is_empty()) {
        Some(app.current_selection)
    } else {
        None
    };
    Screen { groups, rows, group_cursor, command_cursor }
}

} // verus!

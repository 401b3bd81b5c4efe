//! One turn of a session: from a key to an event, and from an event to the
//! next state and what the program around the core has to do.

use crate::app::lemma_move_keeps_selection_in_bounds;
use crate::app::AppState;
use crate::app::NavState;
use crate::app::FOCUS_COMMANDS;
use crate::config::keys_of;
use crate::config::lookup;
use crate::config::Catalog;
use crate::config::Config;
use crate::config::Text;
use crate::ui::get_filtered_connections;
use crate::ui::visible;
use crate::ui::Entry;
use vstd::prelude::*;

verus! {

/// A key as the input source reports it.
#[derive(Clone, Copy, Debug, PartialEq, Eq, Structural)]
pub enum Key {
    Char(char),
    Left,
    Right,
    Up,
    Down,
    Enter,
    Esc,
    Backspace,
    /// Any key the launcher has no use for.
    Other,
}

/// The discrete input events of the navigation state machine.
#[derive(Clone, Copy, Debug, PartialEq, Eq, Structural)]
pub enum Event {
    MoveDown,
    MoveUp,
    FocusLeft,
    FocusRight,
    EnterSearch,
    ExitSearch,
    AppendChar(char),
    Backspace,
    Confirm,
    /// The quit key; ignored in search mode.
    Quit,
    /// The interrupt signal; ends the session in every state.
    Interrupt,
}

/// What a turn asks of the program around the core.
#[derive(Debug, PartialEq, Eq)]
pub enum Outcome {
    /// Go on with the next key.
    Continue,
    /// End the session without a command.
    Quit,
    /// End the session and run this command line.
    Run(String),
}

/// The mathematical content of an [`Outcome`].
pub enum Action {
    Continue,
    Quit,
    Run(Text),
}

impl View for Outcome {
    type V = Action;

    open spec fn view(&self) -> Action {
        match self {
            Outcome::Continue => Action::Continue,
            Outcome::Quit => Action::Quit,
            Outcome::Run(line) => Action::Run(line@),
        }
    }
}

/// The event a key stands for. `q` quits while browsing and is text while
/// searching; `c` with the control key interrupts; `/` enters search mode.
pub open spec fn key_event(key: Key, ctrl: bool, search_active: bool) -> Option<Event> {
    match key {
        Key::Char(c) => if c == 'q' && !search_active {
            Some(Event::Quit)
        } else if c == 'c' && ctrl {
            Some(Event::Interrupt)
        } else if c == '/' {
            Some(Event::EnterSearch)
        } else {
            Some(Event::AppendChar(c))
        },
        Key::Left => Some(Event::FocusLeft),
        Key::Right => Some(Event::FocusRight),
        Key::Down => Some(Event::MoveDown),
        Key::Up => Some(Event::MoveUp),
        Key::Enter => Some(Event::Confirm),
        Key::Esc => Some(Event::ExitSearch),
        Key::Backspace => Some(Event::Backspace),
        Key::Other => None,
    }
}

/// The list shown in state `nav` when the group names are those of the
/// catalog itself.
pub open spec fn shown(catalog: Catalog, nav: NavState) -> Seq<Entry> {
    visible(catalog, keys_of(catalog), nav)
}

/// The command line that confirming resolves to in state `nav`: none unless
/// the focus is on the commands and the selection indexes an entry of the
/// visible list; then the line stored for that entry, or the command name
/// itself where the group stores none.
pub open spec fn resolved(catalog: Catalog, nav: NavState) -> Option<Text> {
    let list = shown(catalog, nav);
    if nav.focus == 1 && nav.current_selection < list.len() {
        let entry = list[nav.current_selection as int];
        match lookup(catalog, entry.0) {
            Some(group) => match lookup(group, entry.1) {
                Some(line) => Some(line),
                None => Some(entry.1),
            },
            None => None,
        }
    } else {
        None
    }
}

/// The state with its selection brought inside the list it shows.
pub open spec fn settled(catalog: Catalog, nav: NavState) -> NavState {
    nav.clamp_selection(shown(catalog, nav).len())
}

/// The state after `event`. Moves are bounded by the number of groups and
/// the length of the list visible before the move; where a move brings up
/// the list of another group, the selection is brought inside that list.
pub open spec fn next_state(catalog: Catalog, nav: NavState, event: Event) -> NavState {
    match event {
        Event::MoveDown => settled(
            catalog,
            nav.move_down(catalog.len(), shown(catalog, nav).len()),
        ),
        Event::MoveUp => settled(catalog, nav.move_up(catalog.len(), shown(catalog, nav).len())),
        Event::FocusLeft => nav.handle_left(),
        Event::FocusRight => nav.handle_right(),
        Event::EnterSearch => nav.enter_search(),
        Event::ExitSearch => nav.reset_search(),
        Event::AppendChar(c) => nav.type_char(c),
        Event::Backspace => nav.backspace(),
        Event::Confirm => nav,
        Event::Quit => nav,
        Event::Interrupt => nav,
    }
}

/// What `event` asks of the program in state `nav`.
pub open spec fn action(catalog: Catalog, nav: NavState, event: Event) -> Action {
    match event {
        Event::Confirm => match resolved(catalog, nav) {
            Some(line) => Action::Run(line),
            None => Action::Continue,
        },
        Event::Quit => if nav.search_active {
            Action::Continue
        } else {
            Action::Quit
        },
        Event::Interrupt => Action::Quit,
        _ => Action::Continue,
    }
}

/// The state after a sequence of events, taken in order.
pub open spec fn run(catalog: Catalog, nav: NavState, events: Seq<Event>) -> NavState
    decreases events.len(),
{
    if events.len() == 0 {
        nav
    } else {
        next_state(catalog, run(catalog, nav, events.drop_last()), events.last())
    }
}

/// The selection of `nav` is an index into the list that `nav` shows, or 0
/// where that list is empty.
pub open spec fn in_bounds(catalog: Catalog, nav: NavState) -> bool {
    nav.selection_in_bounds(shown(catalog, nav).len())
}

/// The event changes the state whatever the state is: a move, entering or
/// leaving search mode, or typing or deleting that search mode takes.
pub open spec fn takes_effect(nav: NavState, event: Event) -> bool {
    ||| event is MoveDown
    ||| event is MoveUp
    ||| event is EnterSearch
    ||| event is ExitSearch
    ||| nav.search_active && event is AppendChar
    ||| nav.search_active && event is Backspace && nav.search_query.len() > 0
}

/// Index-bounds invariant. A selection inside the visible list, or 0 on an
/// empty one, is so again after every event; and after an event that takes
/// effect it is so whatever the selection was before.
pub proof fn lemma_selection_stays_in_bounds(catalog: Catalog, nav: NavState, event: Event)
    ensures
        in_bounds(catalog, nav) ==> in_bounds(catalog, next_state(catalog, nav, event)),
        takes_effect(nav, event) ==> in_bounds(catalog, next_state(catalog, nav, event)),
{
    let groups = catalog.len();
    let rows = shown(catalog, nav).len();
    let down = nav.move_down(groups, rows);
    let up = nav.move_up(groups, rows);
    lemma_move_keeps_selection_in_bounds(down, groups, shown(catalog, down).len());
    lemma_move_keeps_selection_in_bounds(up, groups, shown(catalog, up).len());
}

/// A move in the command pane is the move of the state machine alone: the
/// visible list stays, and the selection is inside it after the move. A
/// move in the group pane keeps a selection that fits the list of the group
/// moved to.
pub proof fn lemma_moves_settle_only_between_groups(catalog: Catalog, nav: NavState)
    ensures
        !nav.on_groups() ==> next_state(catalog, nav, Event::MoveDown) == nav.move_down(
            catalog.len(),
            shown(catalog, nav).len(),
        ),
        !nav.on_groups() ==> next_state(catalog, nav, Event::MoveUp) == nav.move_up(
            catalog.len(),
            shown(catalog, nav).len(),
        ),
        in_bounds(catalog, nav.move_down(catalog.len(), shown(catalog, nav).len())) ==> next_state(
            catalog,
            nav,
            Event::MoveDown,
        ) == nav.move_down(catalog.len(), shown(catalog, nav).len()),
        in_bounds(catalog, nav.move_up(catalog.len(), shown(catalog, nav).len())) ==> next_state(
            catalog,
            nav,
            Event::MoveUp,
        ) == nav.move_up(catalog.len(), shown(catalog, nav).len()),
{
    let groups = catalog.len();
    let rows = shown(catalog, nav).len();
    let down = nav.move_down(groups, rows);
    let up = nav.move_up(groups, rows);
    lemma_move_keeps_selection_in_bounds(nav, groups, rows);
    lemma_move_keeps_selection_in_bounds(down, groups, shown(catalog, down).len());
    lemma_move_keeps_selection_in_bounds(up, groups, shown(catalog, up).len());
}

/// Every state that a session reaches from the initial state is well
/// formed and has its selection inside the list it shows.
pub proof fn lemma_sessions_stay_in_bounds(catalog: Catalog, events: Seq<Event>)
    ensures
        run(catalog, NavState::initial(), events).wf(),
        in_bounds(catalog, run(catalog, NavState::initial(), events)),
    decreases events.len(),
{
    if events.len() > 0 {
        let before = run(catalog, NavState::initial(), events.drop_last());
        lemma_sessions_stay_in_bounds(catalog, events.drop_last());
        lemma_selection_stays_in_bounds(catalog, before, events.last());
        lemma_states_stay_well_formed(catalog, before, events.last());
    }
}

/// The initial state is well formed, and every event leads from a well
/// formed state to a well formed state: the focus is never on the groups
/// in search mode, and the query is empty outside it.
pub proof fn lemma_states_stay_well_formed(catalog: Catalog, nav: NavState, event: Event)
    ensures
        NavState::initial().wf(),
        nav.wf() ==> next_state(catalog, nav, event).wf(),
{
}

/// Typing and deleting change nothing but the query and the selection, and
/// leave search mode as it was.
pub proof fn lemma_typing_keeps_mode(catalog: Catalog, nav: NavState, typed: Seq<Event>)
    requires
        forall|i: int| 0 <= i < typed.len() ==> typed[i] is AppendChar || typed[i] is Backspace,
    ensures
        run(catalog, nav, typed).search_active == nav.search_active,
        run(catalog, nav, typed).focus == nav.focus,
        run(catalog, nav, typed).selected_group == nav.selected_group,
    decreases typed.len(),
{
    if typed.len() > 0 {
        lemma_typing_keeps_mode(catalog, nav, typed.drop_last());
    }
}

/// Search round trip. Entering search mode, typing and deleting at will,
/// and leaving search mode ends with an empty query, the focus on the
/// groups, the selection at 0 and the selected group untouched, whatever
/// the state before.
pub proof fn lemma_search_round_trip(catalog: Catalog, nav: NavState, typed: Seq<Event>)
    requires
        forall|i: int| 0 <= i < typed.len() ==> typed[i] is AppendChar || typed[i] is Backspace,
    ensures
        ({
            let entered = next_state(catalog, nav, Event::EnterSearch);
            let left = next_state(catalog, run(catalog, entered, typed), Event::ExitSearch);
            left == (NavState {
                selected_group: nav.selected_group,
                current_selection: 0,
                focus: 0,
                search_active: false,
                search_query: Seq::empty(),
            })
        }),
{
    lemma_typing_keeps_mode(catalog, next_state(catalog, nav, Event::EnterSearch), typed);
}

/// Confirming on an empty visible list, or with the focus on the groups,
/// resolves to nothing and leaves the session running.
pub proof fn lemma_confirm_needs_an_entry(catalog: Catalog, nav: NavState)
    requires
        shown(catalog, nav).len() == 0 || nav.focus != 1,
    ensures
        resolved(catalog, nav).is_none(),
        action(catalog, nav, Event::Confirm) == Action::Continue,
        next_state(catalog, nav, Event::Confirm) == nav,
{
}

/// Maps a key, with the state of the control key, to the event it stands
/// for in or out of search mode.
pub fn event_for_key(key: Key, ctrl: bool, search_mode: bool) -> (r: Option<Event>)
    ensures
        r == key_event(key, ctrl, search_mode),
{
    match key {
        Key::Char(c) => {
            if c == 'q' && !search_mode {
                Some(Event::Quit)
            } else if c == 'c' && ctrl {
                Some(Event::Interrupt)
            } else if c == '/' {
                Some(Event::EnterSearch)
            } else {
                Some(Event::AppendChar(c))
            }
        },
        Key::Left => Some(Event::FocusLeft),
        Key::Right => Some(Event::FocusRight),
        Key::Down => Some(Event::MoveDown),
        Key::Up => Some(Event::MoveUp),
        Key::Enter => Some(Event::Confirm),
        Key::Esc => Some(Event::ExitSearch),
        Key::Backspace => Some(Event::Backspace),
        Key::Other => None,
    }
}

/// The number of groups and the length of the visible list, the two bounds
/// a move needs.
fn list_lengths(config: &Config, app: &AppState) -> (r: (usize, usize))
    ensures
        r.0 == config@.len(),
        r.1 == shown(config@, app@).len(),
{
    let group_names = config.group_names();
    let names = group_names.as_slice();
    let list = get_filtered_connections(config, names, app);
    proof {
        assert(names.deep_view() =~= group_names.deep_view());
        assert(list.deep_view().len() == list@.len());
        assert(group_names.deep_view().len() == group_names@.len());
    }
    (group_names.len(), list.len())
}

/// Resolves the selection to a command line, as confirming does.
///
/// Returns a line exactly when the focus is on the commands and the
/// selection indexes an entry of the visible list; an empty list resolves
/// to nothing.
pub fn resolve_selection(config: &Config, app: &AppState) -> (r: Option<String>)
    ensures
        r.deep_view() == resolved(config@, app@),
{
    if app.focus != FOCUS_COMMANDS {
        return None;
    }
    let group_names = config.group_names();
    let names = group_names.as_slice();
    let list = get_filtered_connections(config, names, app);
    proof {
        assert(names.deep_view() =~= group_names.deep_view());
        assert(list.deep_view().len() == list@.len());
    }
    if app.current_selection >= list.len() {
        return None;
    }
    let group_name = &list[app.current_selection].0;
    let command_name = &list[app.current_selection].1;
    assert(list.deep_view()[app.current_selection as int] == (group_name@, command_name@));
    match config.group(group_name) {
        Some(group) => match group.command(command_name) {
            Some(line) => Some(line.clone()),
            None => Some(command_name.clone()),
        },
        None => None,
    }
}

/// Takes one event: moves `app` to the next state and tells the caller
/// whether to go on, to quit, or to run a command line.
///
/// After a move the selection is inside the visible list, also where the
/// move brought up the shorter list of another group.
pub fn handle_event(config: &Config, app: &mut AppState, event: Event) -> (out: Outcome)
    ensures
        final(app)@ == next_state(config@, old(app)@, event),
        out@ == action(config@, old(app)@, event),
        in_bounds(config@, old(app)@) ==> in_bounds(config@, final(app)@),
        takes_effect(old(app)@, event) ==> in_bounds(config@, final(app)@),
{
    proof {
        lemma_selection_stays_in_bounds(config@, app@, event);
    }
    match event {
        Event::MoveDown => {
            let (groups, rows) = list_lengths(config, app);
            app.move_down(groups, rows);
            let (_, rows_after) = list_lengths(config, app);
            app.clamp_selection(rows_after);
            Outcome::Continue
        },
        Event::MoveUp => {
            let (groups, rows) = list_lengths(config, app);
            app.move_up(groups, rows);
            let (_, rows_after) = list_lengths(config, app);
            app.clamp_selection(rows_after);
            Outcome::Continue
        },
        Event::FocusLeft => {
            app.handle_left();
            Outcome::Continue
        },
        Event::FocusRight => {
            app.handle_right();
            Outcome::Continue
        },
        Event::EnterSearch => {
            app.enter_search();
            Outcome::Continue
        },
        Event::ExitSearch => {
            app.reset_search();
            Outcome::Continue
        },
        Event::AppendChar(c) => {
            app.type_char(c);
            Outcome::Continue
        },
        Event::Backspace => {
            app.backspace();
            Outcome::Continue
        },
        Event::Confirm => match resolve_selection(config, app) {
            Some(line) => Outcome::Run(line),
            None => Outcome::Continue,
        },
        Event::Quit => {
            if app.search_mode {
                Outcome::Continue
            } else {
                Outcome::Quit
            }
        },
        Event::Interrupt => Outcome::Quit,
    }
}

} // verus!

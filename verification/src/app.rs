//! The navigation state and its transitions.

use crate::config::Text;
use vstd::arithmetic::div_mod::lemma_add_mod_noop_right;
use vstd::arithmetic::div_mod::lemma_mod_add_multiples_vanish;
use vstd::arithmetic::div_mod::lemma_mod_pos_bound;
use vstd::arithmetic::div_mod::lemma_mod_self_0;
use vstd::arithmetic::div_mod::lemma_small_mod;
use vstd::prelude::*;

verus! {

/// Value of `focus` while the group pane takes the arrow keys.
pub const FOCUS_GROUPS: usize = 0;

/// Value of `focus` while the command pane takes the arrow keys.
pub const FOCUS_COMMANDS: usize = 1;

/// The length of the index space of a list with `count` entries: an empty
/// list still has the index 0.
pub open spec fn index_space(count: nat) -> nat {
    if count == 0 {
        1
    } else {
        count
    }
}

/// The index after `index` in a circular list of `count` entries.
pub open spec fn next_index(index: nat, count: nat) -> nat {
    (index + 1) % index_space(count)
}

/// The index before `index` in a circular list of `count` entries: index 0
/// wraps to the last entry, and an index beyond the list is taken modulo
/// its length first.
pub open spec fn previous_index(index: nat, count: nat) -> nat {
    ((index % index_space(count)) + index_space(count) - 1) as nat % index_space(count)
}

/// The largest index that fits a list of `count` entries and is not above
/// `index`.
pub open spec fn clamped_index(index: nat, count: nat) -> nat {
    if index < index_space(count) {
        index
    } else {
        (index_space(count) - 1) as nat
    }
}

/// Both neighbours of any index lie inside the list, the clamped index
/// does too, and an index inside the list is its own clamped index.
pub proof fn lemma_indices_in_bounds(index: nat, count: nat)
    ensures
        next_index(index, count) < index_space(count),
        previous_index(index, count) < index_space(count),
        clamped_index(index, count) < index_space(count),
        index < index_space(count) ==> clamped_index(index, count) == index,
{
    let space = index_space(count) as int;
    lemma_mod_pos_bound((index + 1) as int, space);
    lemma_mod_pos_bound(index as int, space);
    lemma_mod_pos_bound((index % index_space(count)) + space - 1, space);
}

/// Inside the list the index before is one less, and before index 0 comes
/// the last index; the index after is one more, and after the last index
/// comes index 0.
pub proof fn lemma_neighbours_inside_list(index: nat, count: nat)
    requires
        index < index_space(count),
    ensures
        previous_index(index, count) == if index > 0 {
            index - 1
        } else {
            index_space(count) - 1
        },
        next_index(index, count) == if index + 1 < index_space(count) {
            index + 1
        } else {
            0
        },
{
    let space = index_space(count);
    lemma_small_mod(index, space);
    if index > 0 {
        lemma_mod_add_multiples_vanish(index - 1, space as int);
        lemma_small_mod((index - 1) as nat, space);
    } else {
        lemma_small_mod((space - 1) as nat, space);
    }
    if index + 1 < space {
        lemma_small_mod((index + 1) as nat, space);
    } else {
        lemma_mod_self_0(space as int);
    }
}

/// Moving up undoes moving down, and moving down undoes moving up, from
/// every index inside the list.
pub proof fn lemma_neighbours_are_inverse(index: nat, count: nat)
    requires
        index < index_space(count),
    ensures
        previous_index(next_index(index, count), count) == index,
        next_index(previous_index(index, count), count) == index,
{
    lemma_indices_in_bounds(index, count);
    lemma_neighbours_inside_list(index, count);
    lemma_neighbours_inside_list(next_index(index, count), count);
    lemma_neighbours_inside_list(previous_index(index, count), count);
}

/// The mathematical content of an [`AppState`].
pub struct NavState {
    /// Index into the list of groups.
    pub selected_group: nat,
    /// Index into the list shown in the command pane.
    pub current_selection: nat,
    /// Pane that takes the arrow keys: 0 for groups, anything else for commands.
    pub focus: nat,
    /// Whether search mode is on.
    pub search_active: bool,
    /// Text typed in search mode.
    pub search_query: Text,
}

impl NavState {
    /// The state a session starts in.
    pub open spec fn initial() -> NavState {
        NavState {
            selected_group: 0,
            current_selection: 0,
            focus: 0,
            search_active: false,
            search_query: Seq::empty(),
        }
    }

    /// The focus is on the group pane.
    pub open spec fn on_groups(self) -> bool {
        self.focus == 0
    }

    /// What holds of every state a session can reach: the focus names a
    /// pane, search mode keeps the focus on the command pane, and there is a
    /// query only in search mode.
    pub open spec fn wf(self) -> bool {
        &&& self.focus <= 1
        &&& self.search_active ==> self.focus == 1
        &&& !self.search_active ==> self.search_query.len() == 0
    }

    /// The selection is an index into a list of `visible_count` entries, or
    /// 0 where the list is empty.
    pub open spec fn selection_in_bounds(self, visible_count: nat) -> bool {
        self.current_selection < index_space(visible_count)
    }

    /// Leaving search mode.
    pub open spec fn reset_search(self) -> NavState {
        NavState {
            search_active: false,
            search_query: Seq::empty(),
            focus: 0,
            current_selection: 0,
            ..self
        }
    }

    /// Entering search mode.
    pub open spec fn enter_search(self) -> NavState {
        NavState {
            search_active: true,
            search_query: Seq::empty(),
            focus: 1,
            current_selection: 0,
            ..self
        }
    }

    /// Moving down in the focused pane.
    pub open spec fn move_down(self, group_count: nat, visible_count: nat) -> NavState {
        if self.on_groups() {
            NavState { selected_group: next_index(self.selected_group, group_count), ..self }
        } else {
            NavState {
                current_selection: next_index(self.current_selection, visible_count),
                ..self
            }
        }
    }

    /// Moving up in the focused pane.
    pub open spec fn move_up(self, group_count: nat, visible_count: nat) -> NavState {
        if self.on_groups() {
            NavState { selected_group: previous_index(self.selected_group, group_count), ..self }
        } else {
            NavState {
                current_selection: previous_index(self.current_selection, visible_count),
                ..self
            }
        }
    }

    /// Bringing the selection inside a list of `visible_count` entries: a
    /// selection that fits stays, one beyond the list becomes the last
    /// index, or 0 where the list is empty.
    pub open spec fn clamp_selection(self, visible_count: nat) -> NavState {
        NavState { current_selection: clamped_index(self.current_selection, visible_count), ..self }
    }

    /// Moving the focus to the group pane; ignored in search mode.
    pub open spec fn handle_left(self) -> NavState {
        if self.search_active {
            self
        } else {
            NavState { focus: 0, ..self }
        }
    }

    /// Moving the focus to the command pane; ignored in search mode.
    pub open spec fn handle_right(self) -> NavState {
        if self.search_active {
            self
        } else {
            NavState { focus: 1, ..self }
        }
    }

    /// Typing a character; ignored outside search mode.
    pub open spec fn type_char(self, c: char) -> NavState {
        if self.search_active {
            NavState { search_query: self.search_query.push(c), current_selection: 0, ..self }
        } else {
            self
        }
    }

    /// Deleting the last character; ignored outside search mode and on an
    /// empty query.
    pub open spec fn backspace(self) -> NavState {
        if self.search_active && self.search_query.len() > 0 {
            NavState { search_query: self.search_query.drop_last(), current_selection: 0, ..self }
        } else {
            self
        }
    }
}

/// The state after one move down for each entry of `visible_counts`, which
/// gives the length of the visible list at that move.
pub open spec fn move_down_each(nav: NavState, group_count: nat, visible_counts: Seq<nat>) -> NavState
    decreases visible_counts.len(),
{
    if visible_counts.len() == 0 {
        nav
    } else {
        move_down_each(nav, group_count, visible_counts.drop_last()).move_down(
            group_count,
            visible_counts.last(),
        )
    }
}

/// In the group pane, moves down add up modulo the number of groups and
/// touch nothing but the selected group. This holds of at least one move,
/// and of none where a group of the list is selected.
pub proof fn lemma_moves_down_add_up(nav: NavState, group_count: nat, visible_counts: Seq<nat>)
    requires
        nav.on_groups(),
        group_count > 0,
        visible_counts.len() > 0 || nav.selected_group < group_count,
    ensures
        move_down_each(nav, group_count, visible_counts) == (NavState {
            selected_group: (nav.selected_group + visible_counts.len()) % group_count,
            ..nav
        }),
    decreases visible_counts.len(),
{
    let n = group_count as int;
    if visible_counts.len() == 0 {
        lemma_small_mod(nav.selected_group, group_count);
    } else if visible_counts.len() == 1 {
        assert(visible_counts.drop_last().len() == 0);
        assert(move_down_each(nav, group_count, visible_counts.drop_last()) == nav);
    } else {
        lemma_moves_down_add_up(nav, group_count, visible_counts.drop_last());
        let k = visible_counts.len() - 1;
        lemma_add_mod_noop_right(1, nav.selected_group + k, n);
    }
}

/// Wraparound cycle law. With the focus on a non-empty list of groups, a
/// move down followed by as many moves down as there are groups selects the
/// group that the first move selected; and as many moves down as there are
/// groups lead from a group of the list back to it. The lengths of the
/// visible list may differ from move to move.
pub proof fn lemma_move_down_cycle(
    nav: NavState,
    group_count: nat,
    first_count: nat,
    visible_counts: Seq<nat>,
)
    requires
        nav.on_groups(),
        group_count > 0,
        visible_counts.len() == group_count,
    ensures
        move_down_each(nav.move_down(group_count, first_count), group_count, visible_counts)
            == nav.move_down(group_count, first_count),
        nav.selected_group < group_count ==> move_down_each(nav, group_count, visible_counts)
            == nav,
{
    let n = group_count as int;
    let first = nav.move_down(group_count, first_count);
    lemma_moves_down_add_up(first, group_count, visible_counts);
    lemma_mod_add_multiples_vanish(first.selected_group as int, n);
    lemma_small_mod(first.selected_group, group_count);
    if nav.selected_group < group_count {
        lemma_moves_down_add_up(nav, group_count, visible_counts);
        lemma_mod_add_multiples_vanish(nav.selected_group as int, n);
        lemma_small_mod(nav.selected_group, group_count);
    }
}

/// A move in the command pane brings the selection inside the list whose
/// length bounds it, whatever the selection was. A move in the group pane
/// leaves the selection alone, so there it stays inside a list it was
/// inside. Clamping brings it inside in every state.
pub proof fn lemma_move_keeps_selection_in_bounds(
    nav: NavState,
    group_count: nat,
    visible_count: nat,
)
    ensures
        !nav.on_groups() ==> nav.move_down(group_count, visible_count).selection_in_bounds(
            visible_count,
        ),
        !nav.on_groups() ==> nav.move_up(group_count, visible_count).selection_in_bounds(
            visible_count,
        ),
        nav.selection_in_bounds(visible_count) ==> nav.move_down(
            group_count,
            visible_count,
        ).selection_in_bounds(visible_count),
        nav.selection_in_bounds(visible_count) ==> nav.move_up(
            group_count,
            visible_count,
        ).selection_in_bounds(visible_count),
        nav.clamp_selection(visible_count).selection_in_bounds(visible_count),
        nav.selection_in_bounds(visible_count) ==> nav.clamp_selection(visible_count) == nav,
{
    lemma_indices_in_bounds(nav.current_selection, visible_count);
}

/// A move in the group pane selects a group of a non-empty list, whatever
/// group index the state held.
pub proof fn lemma_move_keeps_group_in_bounds(nav: NavState, group_count: nat, visible_count: nat)
    requires
        nav.on_groups(),
        group_count > 0,
    ensures
        nav.move_down(group_count, visible_count).selected_group < group_count,
        nav.move_up(group_count, visible_count).selected_group < group_count,
{
    lemma_indices_in_bounds(nav.selected_group, group_count);
}

/// Focus, selection indices and search mode of a session.
pub struct AppState {
    pub selected_group: usize,
    pub current_selection: usize,
    /// [`FOCUS_GROUPS`] or [`FOCUS_COMMANDS`].
    pub focus: usize,
    pub search_mode: bool,
    pub search_query: String,
}

impl View for AppState {
    type V = NavState;

    open spec fn view(&self) -> NavState {
        NavState {
            selected_group: self.selected_group as nat,
            current_selection: self.current_selection as nat,
            focus: self.focus as nat,
            search_active: self.search_mode,
            search_query: self.search_query@,
        }
    }
}

/// Computes the index after `index` in a circular list of `count` entries.
fn step_forward(index: usize, count: usize) -> (r: usize)
    ensures
        r == next_index(index as nat, count as nat),
{
    let space: usize = if count == 0 {
        1
    } else {
        count
    };
    proof {
        lemma_add_mod_noop_right(1, index as int, space as int);
    }
    (index % space + 1) % space
}

/// Computes the index before `index` in a circular list of `count` entries.
fn step_back(index: usize, count: usize) -> (r: usize)
    ensures
        r == previous_index(index as nat, count as nat),
{
    let space: usize = if count == 0 {
        1
    } else {
        count
    };
    let inside: usize = index % space;
    proof {
        lemma_mod_pos_bound(index as int, space as int);
        lemma_small_mod(inside as nat, space as nat);
        lemma_neighbours_inside_list(inside as nat, count as nat);
    }
    if inside > 0 {
        inside - 1
    } else {
        space - 1
    }
}

impl AppState {
    /// The state a session starts in: browsing, focus on the groups, both
    /// indices 0.
    pub fn new() -> (r: Self)
        ensures
            r@ == NavState::initial(),
    {
        Self {
            selected_group: 0,
            current_selection: 0,
            focus: FOCUS_GROUPS,
            search_mode: false,
            search_query: String::new(),
        }
    }

    /// Leaves search mode: the query is cleared, the focus returns to the
    /// groups and the selection to 0.
    pub fn reset_search(&mut self)
        ensures
            final(self)@ == old(self)@.reset_search(),
    {
        self.search_mode = false;
        self.search_query = String::new();
        self.focus = FOCUS_GROUPS;
        self.current_selection = 0;
    }

    /// Enters search mode with an empty query, the focus on the commands and
    /// the selection at 0.
    pub fn enter_search(&mut self)
        ensures
            final(self)@ == old(self)@.enter_search(),
    {
        self.search_mode = true;
        self.search_query = String::new();
        self.focus = FOCUS_COMMANDS;
        self.current_selection = 0;
    }

    /// Moves down by one in the focused pane, wrapping at the end. An empty
    /// list keeps the index at 0.
    pub fn move_down(&mut self, group_count: usize, conn_count: usize)
        ensures
            final(self)@ == old(self)@.move_down(group_count as nat, conn_count as nat),
            !old(self)@.on_groups() ==> final(self)@.selection_in_bounds(conn_count as nat),
            old(self)@.on_groups() && group_count > 0 ==> final(self).selected_group < group_count,
    {
        proof {
            lemma_indices_in_bounds(self.current_selection as nat, conn_count as nat);
            lemma_indices_in_bounds(self.selected_group as nat, group_count as nat);
        }
        if self.focus == FOCUS_GROUPS {
            self.selected_group = step_forward(self.selected_group, group_count);
        } else {
            self.current_selection = step_forward(self.current_selection, conn_count);
        }
    }

    /// Moves up by one in the focused pane, wrapping from index 0 to the
    /// last entry. An empty list keeps the index at 0.
    pub fn move_up(&mut self, group_count: usize, conn_count: usize)
        ensures
            final(self)@ == old(self)@.move_up(group_count as nat, conn_count as nat),
            !old(self)@.on_groups() ==> final(self)@.selection_in_bounds(conn_count as nat),
            old(self)@.on_groups() && group_count > 0 ==> final(self).selected_group < group_count,
    {
        proof {
            lemma_indices_in_bounds(self.current_selection as nat, conn_count as nat);
            lemma_indices_in_bounds(self.selected_group as nat, group_count as nat);
        }
        if self.focus == FOCUS_GROUPS {
            self.selected_group = step_back(self.selected_group, group_count);
        } else {
            self.current_selection = step_back(self.current_selection, conn_count);
        }
    }

    /// Brings the selection inside a list of `conn_count` entries: a
    /// selection beyond the list becomes its last index, or 0 where the
    /// list is empty.
    pub fn clamp_selection(&mut self, conn_count: usize)
        ensures
            final(self)@ == old(self)@.clamp_selection(conn_count as nat),
            final(self)@.selection_in_bounds(conn_count as nat),
    {
        let space: usize = if conn_count == 0 {
            1
        } else {
            conn_count
        };
        if self.current_selection >= space {
            self.current_selection = space - 1;
        }
    }

    /// Gives the focus to the group pane, unless search mode is on.
    pub fn handle_left(&mut self)
        ensures
            final(self)@ == old(self)@.handle_left(),
    {
        if !self.search_mode {
            self.focus = FOCUS_GROUPS;
        }
    }

    /// Gives the focus to the command pane, unless search mode is on.
    pub fn handle_right(&mut self)
        ensures
            final(self)@ == old(self)@.handle_right(),
    {
        if !self.search_mode {
            self.focus = FOCUS_COMMANDS;
        }
    }

    /// In search mode, appends `c` to the query and returns the selection
    /// to 0.
    pub fn type_char(&mut self, c: char)
        ensures
            final(self)@ == old(self)@.type_char(c),
    {
        if self.search_mode {
            self.search_query.push(c);
            self.current_selection = 0;
        }
    }

    /// In search mode, removes the last character of a query that has one
    /// and returns the selection to 0.
    pub fn backspace(&mut self)
        ensures
            final(self)@ == old(self)@.backspace(),
    {
        if self.search_mode && !self.search_query.as_str().is_empty() {
            self.search_query.pop();
            self.current_selection = 0;
        }
    }
}

} // verus!

use launcher::app::AppState;
use launcher::app::FOCUS_COMMANDS;
use launcher::app::FOCUS_GROUPS;

fn state(selected_group: usize, current_selection: usize, focus: usize) -> AppState {
    AppState {
        selected_group,
        current_selection,
        focus,
        search_mode: false,
        search_query: String::new(),
    }
}

#[test]
fn new_state_is_browsing_with_focus_on_groups() {
    let app = AppState::new();
    assert_eq!(app.selected_group, 0);
    assert_eq!(app.current_selection, 0);
    assert_eq!(app.focus, FOCUS_GROUPS);
    assert!(!app.search_mode);
    assert_eq!(app.search_query, "");
}

#[test]
fn focus_constants_name_the_two_panes() {
    assert_eq!(FOCUS_GROUPS, 0);
    assert_eq!(FOCUS_COMMANDS, 1);
}

#[test]
fn move_down_in_groups_advances_and_wraps() {
    let mut app = state(0, 0, FOCUS_GROUPS);
    app.move_down(3, 5);
    assert_eq!(app.selected_group, 1);
    app.move_down(3, 5);
    assert_eq!(app.selected_group, 2);
    app.move_down(3, 5);
    assert_eq!(app.selected_group, 0);
    assert_eq!(app.current_selection, 0);
}

#[test]
fn move_down_in_commands_advances_and_wraps() {
    let mut app = state(1, 0, FOCUS_COMMANDS);
    app.move_down(3, 2);
    assert_eq!(app.current_selection, 1);
    app.move_down(3, 2);
    assert_eq!(app.current_selection, 0);
    assert_eq!(app.selected_group, 1);
}

#[test]
fn move_down_on_empty_lists_stays_at_zero() {
    let mut app = state(0, 0, FOCUS_GROUPS);
    app.move_down(0, 0);
    assert_eq!(app.selected_group, 0);
    let mut app = state(0, 0, FOCUS_COMMANDS);
    app.move_down(0, 0);
    assert_eq!(app.current_selection, 0);
}

#[test]
fn move_down_from_beyond_the_list_reduces_modulo_its_length() {
    let mut app = state(6, 0, FOCUS_GROUPS);
    app.move_down(4, 0);
    assert_eq!(app.selected_group, 3);
    let mut app = state(0, 5, FOCUS_COMMANDS);
    app.move_down(4, 3);
    assert_eq!(app.current_selection, 0);
}

#[test]
fn move_down_at_the_largest_index_does_not_overflow() {
    let mut app = state(usize::MAX, usize::MAX, FOCUS_GROUPS);
    app.move_down(10, 10);
    assert_eq!(app.selected_group, ((usize::MAX % 10) + 1) % 10);
    app.focus = FOCUS_COMMANDS;
    app.move_down(10, usize::MAX);
    assert_eq!(app.current_selection, 1);
}

#[test]
fn move_up_in_groups_wraps_to_the_last_group() {
    let mut app = state(0, 0, FOCUS_GROUPS);
    app.move_up(3, 5);
    assert_eq!(app.selected_group, 2);
    app.move_up(3, 5);
    assert_eq!(app.selected_group, 1);
    assert_eq!(app.current_selection, 0);
}

#[test]
fn move_up_in_commands_wraps_to_the_last_entry() {
    let mut app = state(0, 0, FOCUS_COMMANDS);
    app.move_up(3, 5);
    assert_eq!(app.current_selection, 4);
    app.move_up(3, 5);
    assert_eq!(app.current_selection, 3);
    assert_eq!(app.selected_group, 0);
}

#[test]
fn move_up_on_empty_lists_stays_at_zero() {
    let mut app = state(0, 0, FOCUS_GROUPS);
    app.move_up(0, 0);
    assert_eq!(app.selected_group, 0);
    let mut app = state(0, 0, FOCUS_COMMANDS);
    app.move_up(0, 0);
    assert_eq!(app.current_selection, 0);
}

#[test]
fn wraparound_cycle_returns_to_the_first_group_reached() {
    for group_count in 1..7usize {
        for start in 0..10usize {
            let mut app = state(start, 0, FOCUS_GROUPS);
            app.move_down(group_count, 3);
            let reached = app.selected_group;
            assert!(reached < group_count);
            for _ in 0..group_count {
                app.move_down(group_count, 3);
            }
            assert_eq!(app.selected_group, reached);
        }
    }
}

#[test]
fn wraparound_cycle_returns_to_a_group_of_the_list() {
    let mut app = state(2, 0, FOCUS_GROUPS);
    for _ in 0..5 {
        app.move_down(5, 1);
    }
    assert_eq!(app.selected_group, 2);
}

#[test]
fn moves_keep_the_selection_in_bounds() {
    for count in 0..5usize {
        let space = count.max(1);
        for start in 0..space {
            let mut app = state(0, start, FOCUS_COMMANDS);
            app.move_down(2, count);
            assert!(app.current_selection < space);
            let mut app = state(0, start, FOCUS_COMMANDS);
            app.move_up(2, count);
            assert!(app.current_selection < space);
        }
    }
}

#[test]
fn left_and_right_switch_the_focus_while_browsing() {
    let mut app = AppState::new();
    app.handle_right();
    assert_eq!(app.focus, FOCUS_COMMANDS);
    app.handle_left();
    assert_eq!(app.focus, FOCUS_GROUPS);
}

#[test]
fn left_and_right_are_ignored_in_search_mode() {
    let mut app = AppState::new();
    app.enter_search();
    app.handle_left();
    assert_eq!(app.focus, FOCUS_COMMANDS);
    app.focus = FOCUS_GROUPS;
    app.handle_right();
    assert_eq!(app.focus, FOCUS_GROUPS);
}

#[test]
fn enter_search_resets_query_focus_and_selection() {
    let mut app = state(2, 4, FOCUS_GROUPS);
    app.search_query = String::from("old");
    app.enter_search();
    assert!(app.search_mode);
    assert_eq!(app.search_query, "");
    assert_eq!(app.focus, FOCUS_COMMANDS);
    assert_eq!(app.current_selection, 0);
    assert_eq!(app.selected_group, 2);
}

#[test]
fn reset_search_clears_query_and_returns_to_groups() {
    let mut app = state(2, 4, FOCUS_COMMANDS);
    app.search_mode = true;
    app.search_query = String::from("dep");
    app.reset_search();
    assert!(!app.search_mode);
    assert_eq!(app.search_query, "");
    assert_eq!(app.focus, FOCUS_GROUPS);
    assert_eq!(app.current_selection, 0);
    assert_eq!(app.selected_group, 2);
}

#[test]
fn type_char_appends_in_search_mode_only() {
    let mut app = state(0, 3, FOCUS_COMMANDS);
    app.type_char('x');
    assert_eq!(app.search_query, "");
    assert_eq!(app.current_selection, 3);
    app.enter_search();
    app.current_selection = 3;
    app.type_char('d');
    app.type_char('é');
    assert_eq!(app.search_query, "dé");
    assert_eq!(app.current_selection, 0);
}

#[test]
fn backspace_removes_the_last_character() {
    let mut app = AppState::new();
    app.enter_search();
    app.type_char('a');
    app.type_char('ß');
    app.current_selection = 2;
    app.backspace();
    assert_eq!(app.search_query, "a");
    assert_eq!(app.current_selection, 0);
    app.backspace();
    assert_eq!(app.search_query, "");
}

#[test]
fn backspace_is_ignored_on_an_empty_query_and_while_browsing() {
    let mut app = AppState::new();
    app.enter_search();
    app.current_selection = 2;
    app.backspace();
    assert_eq!(app.search_query, "");
    assert_eq!(app.current_selection, 2);
    let mut app = state(0, 2, FOCUS_COMMANDS);
    app.search_query = String::from("kept");
    app.backspace();
    assert_eq!(app.search_query, "kept");
    assert_eq!(app.current_selection, 2);
}

#[test]
fn search_round_trip_ends_with_empty_query_and_focus_on_groups() {
    let mut app = state(1, 2, FOCUS_COMMANDS);
    app.enter_search();
    app.type_char('a');
    app.type_char('b');
    app.backspace();
    app.type_char('c');
    app.reset_search();
    assert_eq!(app.search_query, "");
    assert_eq!(app.focus, FOCUS_GROUPS);
    assert!(!app.search_mode);
    assert_eq!(app.selected_group, 1);
}

#[test]
fn move_up_from_beyond_the_list_reduces_modulo_its_length() {
    let mut app = state(0, 5, FOCUS_COMMANDS);
    app.move_up(3, 2);
    assert_eq!(app.current_selection, 0);
    let mut app = state(0, 4, FOCUS_COMMANDS);
    app.move_up(3, 2);
    assert_eq!(app.current_selection, 1);
    let mut app = state(6, 0, FOCUS_GROUPS);
    app.move_up(4, 0);
    assert_eq!(app.selected_group, 1);
    let mut app = state(0, 7, FOCUS_COMMANDS);
    app.move_up(3, 0);
    assert_eq!(app.current_selection, 0);
}

#[test]
fn move_up_at_the_largest_index_does_not_overflow() {
    let mut app = state(usize::MAX, usize::MAX, FOCUS_GROUPS);
    app.move_up(10, 10);
    assert_eq!(app.selected_group, (usize::MAX % 10) - 1);
    app.focus = FOCUS_COMMANDS;
    app.move_up(10, usize::MAX);
    assert_eq!(app.current_selection, usize::MAX - 1);
}

#[test]
fn moves_in_the_command_pane_bound_every_selection() {
    for count in 0..5usize {
        let space = count.max(1);
        for start in [0usize, 1, 2, 3, 4, 5, 6, 17, usize::MAX] {
            let mut app = state(0, start, FOCUS_COMMANDS);
            app.move_down(2, count);
            assert!(app.current_selection < space);
            let mut app = state(0, start, FOCUS_COMMANDS);
            app.move_up(2, count);
            assert!(app.current_selection < space);
        }
    }
}

#[test]
fn moves_in_the_group_pane_bound_every_group_index() {
    for count in 1..5usize {
        for start in [0usize, 1, 2, 3, 4, 5, 6, 17, usize::MAX] {
            let mut app = state(start, 0, FOCUS_GROUPS);
            app.move_down(count, 2);
            assert!(app.selected_group < count);
            let mut app = state(start, 0, FOCUS_GROUPS);
            app.move_up(count, 2);
            assert!(app.selected_group < count);
        }
    }
}

#[test]
fn moves_in_the_group_pane_leave_the_selection_alone() {
    let mut app = state(0, 3, FOCUS_GROUPS);
    app.move_down(2, 1);
    assert_eq!(app.selected_group, 1);
    assert_eq!(app.current_selection, 3);
    app.move_up(2, 1);
    assert_eq!(app.selected_group, 0);
    assert_eq!(app.current_selection, 3);
}

#[test]
fn move_up_undoes_move_down_inside_the_list() {
    for count in 1..6usize {
        for start in 0..count {
            let mut app = state(start, start, FOCUS_GROUPS);
            app.move_down(count, count);
            app.move_up(count, count);
            assert_eq!(app.selected_group, start);
            app.focus = FOCUS_COMMANDS;
            app.move_up(count, count);
            app.move_down(count, count);
            assert_eq!(app.current_selection, start);
        }
    }
}

#[test]
fn clamp_selection_keeps_a_selection_that_fits() {
    let mut app = state(1, 2, FOCUS_COMMANDS);
    app.clamp_selection(3);
    assert_eq!(app.current_selection, 2);
    app.clamp_selection(5);
    assert_eq!(app.current_selection, 2);
    assert_eq!(app.selected_group, 1);
    assert_eq!(app.focus, FOCUS_COMMANDS);
}

#[test]
fn clamp_selection_moves_a_selection_beyond_the_list_to_its_last_entry() {
    let mut app = state(1, 5, FOCUS_GROUPS);
    app.clamp_selection(3);
    assert_eq!(app.current_selection, 2);
    app.clamp_selection(1);
    assert_eq!(app.current_selection, 0);
    let mut app = state(1, 5, FOCUS_GROUPS);
    app.clamp_selection(0);
    assert_eq!(app.current_selection, 0);
    assert_eq!(app.selected_group, 1);
}

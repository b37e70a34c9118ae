use dockboard::record::ContainerRecord;
use dockboard::state::{command_label, command_of, Action, AppState, Command, Key, COMMAND_COUNT};

fn rec(id: &str) -> ContainerRecord {
    ContainerRecord {
        id: id.to_string(),
        image: "img".to_string(),
        command: "cmd".to_string(),
        created_at: "now".to_string(),
        status: "Up".to_string(),
        ports: "".to_string(),
        names: "name".to_string(),
    }
}

fn two_rows() -> AppState {
    let mut st = AppState::new();
    st.set_containers(vec![rec("abc123"), rec("def456")]);
    st
}

#[test]
fn fresh_session_defaults() {
    let st = AppState::new();
    assert_eq!(st.selected_command(), 0);
    assert_eq!(st.selected_row(), 0);
    assert!(st.containers().is_empty());
    assert!(!st.show_all());
    assert_eq!(st.status().as_str(), "");
    assert!(st.needs_refresh());
}

#[test]
fn command_cycling_wraps_both_ways() {
    let mut st = AppState::new();
    for expected in [1, 2, 3, 0] {
        assert!(matches!(st.handle_key(Key::Right), Action::Continue));
        assert_eq!(st.selected_command(), expected);
    }
    // Four presses are a closed rotation: back at the start.
    assert_eq!(st.selected_command(), 0);
    assert!(matches!(st.handle_key(Key::Left), Action::Continue));
    assert_eq!(st.selected_command(), COMMAND_COUNT - 1);
    assert!(matches!(st.handle_key(Key::Left), Action::Continue));
    assert_eq!(st.selected_command(), 2);
}

#[test]
fn row_highlight_clamps_at_both_ends() {
    let mut st = two_rows();
    assert_eq!(st.selected_row(), 0);
    assert_eq!(st.containers()[st.selected_row()].id, "abc123");
    st.handle_key(Key::Down);
    assert_eq!(st.selected_row(), 1);
    assert_eq!(st.containers()[st.selected_row()].id, "def456");
    // Clamped: a further press stays on the last row.
    st.handle_key(Key::Down);
    assert_eq!(st.selected_row(), 1);
    assert_eq!(st.containers()[st.selected_row()].id, "def456");
    st.handle_key(Key::Up);
    assert_eq!(st.selected_row(), 0);
    st.handle_key(Key::Up);
    assert_eq!(st.selected_row(), 0);
}

#[test]
fn row_highlight_is_inert_without_rows() {
    let mut st = AppState::new();
    st.handle_key(Key::Down);
    assert_eq!(st.selected_row(), 0);
    st.handle_key(Key::Up);
    assert_eq!(st.selected_row(), 0);
}

#[test]
fn activating_list_running_after_list_all_resets() {
    let mut st = two_rows();
    st.handle_key(Key::Right);
    assert!(matches!(command_of(st.selected_command()), Command::ListAll));
    assert!(matches!(st.handle_key(Key::Activate), Action::Continue));
    assert!(st.show_all());
    st.handle_key(Key::Down);
    assert_eq!(st.selected_row(), 1);
    st.handle_key(Key::Left);
    assert!(matches!(command_of(st.selected_command()), Command::ListRunning));
    assert!(matches!(st.handle_key(Key::Activate), Action::Continue));
    // The row highlight is back at the first row and the next refreshes
    // exclude stopped containers again.
    assert_eq!(st.selected_row(), 0);
    assert!(!st.show_all());
    assert!(st.needs_refresh());
}

#[test]
fn stop_shortcut_targets_the_highlighted_row() {
    let mut st = two_rows();
    st.handle_key(Key::Down);
    match st.handle_key(Key::StopNow) {
        Action::Stop(id) => assert_eq!(id, "def456"),
        _ => panic!("expected a stop action"),
    }
}

#[test]
fn activated_stop_command_matches_the_shortcut() {
    let mut st = two_rows();
    st.handle_key(Key::Right);
    st.handle_key(Key::Right);
    assert!(matches!(command_of(st.selected_command()), Command::Stop));
    match st.handle_key(Key::Activate) {
        Action::Stop(id) => assert_eq!(id, "abc123"),
        _ => panic!("expected a stop action"),
    }
}

#[test]
fn stop_with_no_rows_does_nothing() {
    let mut st = AppState::new();
    assert!(matches!(st.handle_key(Key::StopNow), Action::Continue));
}

#[test]
fn stop_outcome_updates_the_status_line() {
    let mut st = two_rows();
    st.apply_stop_result("abc123", Ok(()));
    assert_eq!(st.status().as_str(), "Stopped container abc123");
    assert!(st.status().contains("abc123"));
    st.apply_stop_result("abc123", Err("No such container".to_string()));
    assert_eq!(st.status().as_str(), "Failed to stop container: No such container");
    assert!(st.status().contains("No such container"));
    // The loop keeps going either way: the state is still usable.
    st.handle_key(Key::Down);
    assert_eq!(st.selected_row(), 1);
}

#[test]
fn prune_outcome_updates_the_status_line() {
    let mut st = AppState::new();
    st.handle_key(Key::Left);
    assert!(matches!(command_of(st.selected_command()), Command::Prune));
    assert!(matches!(st.handle_key(Key::Activate), Action::Prune));
    st.apply_prune_result(Ok(()));
    assert_eq!(st.status().as_str(), "System pruned");
    st.apply_prune_result(Err("permission denied".to_string()));
    assert_eq!(st.status().as_str(), "Failed to prune system: permission denied");
    assert!(st.status().contains("permission denied"));
}

#[test]
fn quit_key_ends_the_session_and_others_do_nothing() {
    let mut st = two_rows();
    assert!(matches!(st.handle_key(Key::Quit), Action::Quit));
    assert_eq!(st.selected_row(), 0);
    assert!(matches!(st.handle_key(Key::Other), Action::Continue));
    assert_eq!(st.selected_row(), 0);
    assert_eq!(st.selected_command(), 0);
}

#[test]
fn replacing_the_list_clamps_the_row_highlight() {
    let mut st = two_rows();
    st.handle_key(Key::Down);
    assert_eq!(st.selected_row(), 1);
    st.set_containers(vec![rec("only")]);
    assert_eq!(st.selected_row(), 0);
    assert_eq!(st.containers().len(), 1);
}

#[test]
fn refresh_with_no_valid_lines_empties_the_list() {
    let mut st = two_rows();
    st.handle_key(Key::Down);
    st.set_containers(dockboard::decode::decode_output("junk\nnonsense\n"));
    assert!(st.containers().is_empty());
    assert_eq!(st.selected_row(), 0);
}

#[test]
fn refresh_replaces_the_previous_list_entirely() {
    let mut st = two_rows();
    st.set_containers(vec![rec("x1"), rec("x2"), rec("x3")]);
    let ids: Vec<&str> = st.containers().iter().map(|r| r.id.as_str()).collect();
    assert_eq!(ids, ["x1", "x2", "x3"]);
}

#[test]
fn needs_refresh_only_for_listing_commands() {
    let mut st = AppState::new();
    assert!(st.needs_refresh());
    st.handle_key(Key::Right);
    assert!(st.needs_refresh());
    st.handle_key(Key::Right);
    assert!(!st.needs_refresh());
    st.handle_key(Key::Right);
    assert!(!st.needs_refresh());
}

#[test]
fn menu_labels_match_the_tool_subcommands() {
    assert_eq!(command_label(Command::ListRunning), "ps");
    assert_eq!(command_label(Command::ListAll), "ps -a");
    assert_eq!(command_label(Command::Stop), "stop");
    assert_eq!(command_label(Command::Prune), "prune");
}

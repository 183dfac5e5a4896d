use installer::dispatch::{
    apply_step_result, first_index_with, handle_key, shell_command, step_function_name,
    step_message, KeyPress, LoopAction, StepError,
};
use installer::menu::MenuState;

#[test]
fn initial_menu_shape() {
    let m = MenuState::new();
    assert_eq!(m.items.len(), 8);
    assert_eq!(m.selected, 0);
    for (idx, item) in m.items.iter().enumerate() {
        assert!(!item.completed);
        if idx < 7 {
            assert_eq!(item.id, idx + 1);
        } else {
            assert_eq!(item.id, 0);
        }
    }
    assert_eq!(m.items[0].title, "Full Installation");
    assert_eq!(m.items[7].title, "Exit");
    assert_eq!(m.items[7].description, "Quit installer");
}

#[test]
fn navigation_wraps_both_ways() {
    let mut m = MenuState::new();
    for _ in 0..8 {
        m.next();
    }
    assert_eq!(m.selected, 0);
    m.previous();
    assert_eq!(m.selected, 7);
    m.next();
    assert_eq!(m.selected, 0);
}

#[test]
fn next_then_previous_returns_everywhere() {
    let mut m = MenuState::new();
    for start in 0..8 {
        assert_eq!(m.selected, start);
        m.next();
        m.previous();
        assert_eq!(m.selected, start);
        m.previous();
        m.next();
        assert_eq!(m.selected, start);
        m.next();
    }
}

#[test]
fn down_seven_then_up_lands_on_entry_seven() {
    let mut m = MenuState::new();
    for _ in 0..7 {
        m.next();
    }
    m.previous();
    assert_eq!(m.selected, 6);
    assert_eq!(m.get_selected().id, 7);
}

#[test]
fn get_selected_follows_cursor() {
    let mut m = MenuState::new();
    assert_eq!(m.get_selected().id, 1);
    m.next();
    assert_eq!(m.get_selected().id, 2);
}

#[test]
fn quit_key_terminates() {
    let mut m = MenuState::new();
    assert_eq!(handle_key(&mut m, KeyPress::Quit), LoopAction::Terminate);
    assert_eq!(m.selected, 0);
}

#[test]
fn arrow_keys_navigate() {
    let mut m = MenuState::new();
    assert_eq!(handle_key(&mut m, KeyPress::Down), LoopAction::Idle);
    assert_eq!(m.selected, 1);
    assert_eq!(handle_key(&mut m, KeyPress::Up), LoopAction::Idle);
    assert_eq!(m.selected, 0);
    assert_eq!(handle_key(&mut m, KeyPress::Up), LoopAction::Idle);
    assert_eq!(m.selected, 7);
    assert_eq!(handle_key(&mut m, KeyPress::Other), LoopAction::Idle);
    assert_eq!(m.selected, 7);
}

#[test]
fn enter_dispatches_or_terminates() {
    let mut m = MenuState::new();
    assert_eq!(handle_key(&mut m, KeyPress::Enter), LoopAction::Dispatch(1));
    // Move to the exit entry (id 0, last index) from any position: selecting
    // it terminates without dispatching anything.
    m.previous();
    assert_eq!(m.get_selected().id, 0);
    assert_eq!(handle_key(&mut m, KeyPress::Enter), LoopAction::Terminate);
    assert!(!m.items.iter().any(|it| it.completed));
}

#[test]
fn failed_step_leaves_menu_unchanged() {
    let mut m = MenuState::new();
    m.next();
    apply_step_result(&mut m, false);
    assert_eq!(m.selected, 1);
    assert!(m.items.iter().all(|it| !it.completed));
}

#[test]
fn successful_step_completes_only_selected() {
    let mut m = MenuState::new();
    m.next();
    m.next();
    apply_step_result(&mut m, true);
    assert_eq!(m.selected, 2);
    for (idx, item) in m.items.iter().enumerate() {
        assert_eq!(item.completed, idx == 2);
    }
}

#[test]
fn step_function_name_table() {
    assert_eq!(step_function_name(0), None);
    assert_eq!(step_function_name(1), Some("full_installation"));
    assert_eq!(step_function_name(2), Some("install_packages"));
    assert_eq!(step_function_name(3), Some("deploy_configs"));
    assert_eq!(step_function_name(4), Some("configure_wifi"));
    assert_eq!(step_function_name(5), Some("setup_waybar_modules"));
    assert_eq!(step_function_name(6), Some("install_starship"));
    assert_eq!(step_function_name(7), Some("install_optional"));
    assert_eq!(step_function_name(8), None);
}

#[test]
fn step_message_table() {
    assert_eq!(step_message(0), None);
    assert_eq!(step_message(1), Some("Running full installation..."));
    assert_eq!(step_message(7), Some("Installing optional programs..."));
    assert_eq!(step_message(99), None);
}

#[test]
fn step_error_messages() {
    assert_eq!(
        StepError::ScriptNotFound.message(),
        "Could not find install-functions.sh"
    );
    assert_eq!(
        StepError::StepFailed(String::from("deploy_configs")).message(),
        "Installation step failed: deploy_configs"
    );
}

#[test]
fn shell_command_text() {
    assert_eq!(
        shell_command("/tmp/repo", "/tmp/repo/install-functions.sh", "deploy_configs"),
        "cd /tmp/repo && source /tmp/repo/install-functions.sh && deploy_configs"
    );
}

#[test]
fn first_index_with_cases() {
    assert_eq!(first_index_with(&vec![]), None);
    assert_eq!(first_index_with(&vec![false, false]), None);
    assert_eq!(first_index_with(&vec![true, false]), Some(0));
    assert_eq!(first_index_with(&vec![false, true, true]), Some(1));
}

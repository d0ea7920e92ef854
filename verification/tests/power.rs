use sddm_daemon::power_actions::{
    auth_accepted, auth_handshake, PowerAction, PowerActionClient, LOAD_UNIT, MANAGER_DESTINATION,
    MANAGER_INTERFACE, MANAGER_PATH, PRIVATE_SOCKET, START_MODE, START_UNIT,
};

#[test]
fn every_action_has_its_unit() {
    assert_eq!(PowerAction::PowerOff.systemd_target(), "poweroff.target");
    assert_eq!(PowerAction::Reboot.systemd_target(), "reboot.target");
    assert_eq!(PowerAction::Suspend.systemd_target(), "suspend.target");
    assert_eq!(PowerAction::Hibernate.systemd_target(), "hibernate.target");
    assert_eq!(PowerAction::HybridSleep.systemd_target(), "hybrid-sleep.target");
}

#[test]
fn actions_have_a_fixed_order() {
    let all = PowerAction::all_actions();
    assert_eq!(
        all,
        [
            PowerAction::PowerOff,
            PowerAction::Reboot,
            PowerAction::Suspend,
            PowerAction::Hibernate,
            PowerAction::HybridSleep
        ]
    );
    for (i, act) in all.iter().enumerate() {
        assert_eq!(act.position(), i);
    }
}

#[test]
fn action_is_available_exactly_if_its_unit_resolved() {
    assert!(PowerActionClient::check_action(true));
    assert!(!PowerActionClient::check_action(false));
}

#[test]
fn one_unresolved_action_leaves_the_others_alone() {
    let resolved = [true, false, true, true, false];
    let client = PowerActionClient::connect(resolved);
    for act in PowerAction::all_actions() {
        assert_eq!(client.can_perform_action(act), resolved[act.position()]);
    }
}

#[test]
fn client_remembers_what_was_found() {
    let client = PowerActionClient::connect([false, true, false, true, true]);
    assert!(!client.can_perform_action(PowerAction::PowerOff));
    assert!(client.can_perform_action(PowerAction::Reboot));
    assert!(!client.can_perform_action(PowerAction::Suspend));
    assert!(client.can_perform_action(PowerAction::Hibernate));
    assert!(client.can_perform_action(PowerAction::HybridSleep));
}

#[test]
fn action_is_performed_by_starting_its_unit_irreversibly() {
    let client = PowerActionClient::connect([true; 5]);
    let request = client.perform_action(PowerAction::HybridSleep);
    assert_eq!(request.unit, "hybrid-sleep.target");
    assert_eq!(request.mode, "replace-irreversibly");
    assert_eq!(START_MODE, "replace-irreversibly");
}

#[test]
fn bus_names_are_those_of_the_manager() {
    assert_eq!(PRIVATE_SOCKET, "/run/systemd/private");
    assert_eq!(MANAGER_DESTINATION, "org.freedesktop.systemd1");
    assert_eq!(MANAGER_PATH, "/org/freedesktop/systemd1");
    assert_eq!(MANAGER_INTERFACE, "org.freedesktop.systemd1.Manager");
    assert_eq!(LOAD_UNIT, "LoadUnit");
    assert_eq!(START_UNIT, "StartUnit");
}

#[test]
fn private_socket_handshake_is_minimal() {
    assert_eq!(auth_handshake(), b"\0AUTH EXTERNAL 30\r\nBEGIN\r\n".to_vec());
    assert!(auth_accepted("OK 1234deadbeef\r\n"));
    assert!(auth_accepted("OK"));
    assert!(!auth_accepted("REJECTED EXTERNAL\r\n"));
    assert!(!auth_accepted(" OK"));
    assert!(!auth_accepted(""));
}

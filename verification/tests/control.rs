use sddm_daemon::control_server::{
    capabilities, handshake, information_message, recv_login, Capability, DaemonMessage,
    GreeterConnection, GreeterMessage, Reaction,
};
use sddm_daemon::login_controller::{LoginController, LoginStep};
use sddm_daemon::password_agent::PasswordRequest;
use sddm_daemon::power_actions::{PowerAction, PowerActionClient};
use sddm_daemon::sddm_config::{write_transient_sddm_config, SddmConfig};
use sddm_daemon::wire::{put_u32, send_string, ProtocolError};

fn controller(available: Option<[bool; 5]>) -> LoginController {
    LoginController::new(
        SddmConfig {
            theme: None,
            luks_devices: vec!["/dev/sda2".to_string()],
            greeter: "/usr/bin/sddm-greeter".to_string(),
        },
        available.map(PowerActionClient::connect),
    )
}

fn code(message: GreeterMessage) -> Vec<u8> {
    let mut out = Vec::new();
    put_u32(&mut out, message.code());
    out
}

fn login_body(user: &str, password: &str, session: &str) -> Vec<u8> {
    let mut out = Vec::new();
    send_string(&mut out, user);
    send_string(&mut out, password);
    out.extend_from_slice(&[0xAA, 0xBB, 0xCC, 0xDD]);
    send_string(&mut out, session);
    out
}

fn login_message(user: &str, password: &str, session: &str) -> Vec<u8> {
    let mut out = code(GreeterMessage::Login);
    out.extend_from_slice(&login_body(user, password, session));
    out
}

fn connected(controller: &LoginController) -> GreeterConnection {
    let mut connection = GreeterConnection::new();
    let first = connection.receive(&code(GreeterMessage::Connect), controller, None);
    assert!(matches!(first, Ok(Some((Reaction::Handshake(_), 4)))));
    connection
}

#[test]
fn message_codes_are_fixed() {
    let greeter = [
        GreeterMessage::Connect,
        GreeterMessage::Login,
        GreeterMessage::PowerOff,
        GreeterMessage::Reboot,
        GreeterMessage::Suspend,
        GreeterMessage::Hibernate,
        GreeterMessage::HybridSleep,
    ];
    for (i, message) in greeter.iter().enumerate() {
        assert_eq!(message.code(), i as u32);
        assert_eq!(GreeterMessage::from_code(i as u32), Some(*message));
    }
    assert_eq!(GreeterMessage::from_code(7), None);
    assert_eq!(GreeterMessage::from_code(u32::MAX), None);

    assert_eq!(DaemonMessage::HostName.code(), 0);
    assert_eq!(DaemonMessage::Capabilities.code(), 1);
    assert_eq!(DaemonMessage::LoginSucceeded.code(), 2);
    assert_eq!(DaemonMessage::LoginFailed.code(), 3);
    assert_eq!(DaemonMessage::InformationMessage.code(), 4);
}

#[test]
fn power_messages_and_actions_correspond() {
    for act in PowerAction::all_actions() {
        let message = GreeterMessage::from(act);
        assert_eq!(message.power_action(), Some(act));
        assert_eq!(message.code(), act.position() as u32 + 2);
    }
    assert_eq!(GreeterMessage::Connect.power_action(), None);
    assert_eq!(GreeterMessage::Login.power_action(), None);
}

#[test]
fn capability_bits_are_fixed() {
    assert_eq!(Capability::from(PowerAction::PowerOff).bit(), 0b00001);
    assert_eq!(Capability::from(PowerAction::Reboot).bit(), 0b00010);
    assert_eq!(Capability::from(PowerAction::Suspend).bit(), 0b00100);
    assert_eq!(Capability::from(PowerAction::Hibernate).bit(), 0b01000);
    assert_eq!(Capability::from(PowerAction::HybridSleep).bit(), 0b10000);
}

#[test]
fn capabilities_are_the_bits_of_the_available_actions() {
    assert_eq!(capabilities(&controller(None)), 0);
    assert_eq!(capabilities(&controller(Some([false; 5]))), 0);
    assert_eq!(capabilities(&controller(Some([true; 5]))), 0b11111);
    assert_eq!(capabilities(&controller(Some([true, false, true, false, true]))), 0b10101);
    assert_eq!(capabilities(&controller(Some([false, true, false, false, false]))), 0b00010);
}

#[test]
fn handshake_sends_capabilities_before_the_host_name() {
    assert_eq!(
        handshake(0b00011, Some("box")),
        vec![0, 0, 0, 1, 0, 0, 0, 3, 0, 0, 0, 0, 0, 0, 0, 6, 0, b'b', 0, b'o', 0, b'x']
    );
}

#[test]
fn handshake_without_host_name_sends_capabilities_only() {
    assert_eq!(handshake(0b10000, None), vec![0, 0, 0, 1, 0, 0, 0, 16]);
}

#[test]
fn connect_is_answered_with_the_handshake() {
    let controller = controller(Some([true, true, false, false, false]));
    let mut connection = GreeterConnection::new();
    assert!(!connection.connected);
    let reaction = connection.receive(&code(GreeterMessage::Connect), &controller, Some("box"));
    match reaction {
        Ok(Some((Reaction::Handshake(bytes), used))) => {
            assert_eq!(used, 4);
            assert_eq!(bytes, handshake(0b00011, Some("box")));
        }
        other => panic!("expected the handshake, got {other:?}"),
    }
    assert!(connection.connected);
    assert_eq!(connection.capabilities, 0b00011);
    assert!(!connection.login_in_flight);
}

#[test]
fn first_message_must_be_connect() {
    let controller = controller(None);
    for first in [GreeterMessage::Login, GreeterMessage::PowerOff, GreeterMessage::HybridSleep] {
        let mut connection = GreeterConnection::new();
        let mut bytes = code(first);
        bytes.extend_from_slice(&login_body("a", "b", "c"));
        assert_eq!(
            connection.receive(&bytes, &controller, None).err(),
            Some(ProtocolError::UnexpectedFirstMessage(first.code()))
        );
        assert!(!connection.connected);
    }
    let mut connection = GreeterConnection::new();
    assert_eq!(
        connection.receive(&[0, 0, 0, 99], &controller, None).err(),
        Some(ProtocolError::UnexpectedFirstMessage(99))
    );
}

#[test]
fn login_message_carries_user_password_and_session() {
    let controller = controller(None);
    let mut connection = connected(&controller);
    let mut bytes = login_message("alice", "hunter2", "plasma.desktop");
    let length = bytes.len();
    bytes.extend_from_slice(&[0, 0, 0, 2]);
    match connection.receive(&bytes, &controller, None) {
        Ok(Some((Reaction::BeginLogin(frame), used))) => {
            assert_eq!(used, length);
            assert_eq!(frame.user, "alice");
            assert_eq!(frame.password.as_str(), "hunter2");
            assert_eq!(frame.session, "plasma.desktop");
        }
        other => panic!("expected a login, got {other:?}"),
    }
    assert!(connection.login_in_flight);
}

#[test]
fn login_body_is_read_from_an_offset() {
    let mut bytes = vec![1u8, 2, 3];
    bytes.extend_from_slice(&login_body("u", "", "s"));
    let (frame, used) = recv_login(&bytes, 3).unwrap().unwrap();
    assert_eq!((frame.user.as_str(), frame.password.as_str(), frame.session.as_str()), ("u", "", "s"));
    assert_eq!(used, bytes.len() - 3);
}

#[test]
fn concurrent_login_is_dropped_and_one_result_is_written() {
    let controller = controller(None);
    let mut connection = connected(&controller);
    let mut bytes = login_message("alice", "hunter2", "plasma.desktop");
    let first_length = bytes.len();
    bytes.extend_from_slice(&login_message("mallory", "guess", "x.desktop"));

    let first = connection.receive(&bytes, &controller, None);
    assert!(matches!(first, Ok(Some((Reaction::BeginLogin(_), _)))));
    match connection.receive(&bytes[first_length..], &controller, None) {
        Ok(Some((Reaction::IgnoreLogin(user), used))) => {
            assert_eq!(user, "mallory");
            assert_eq!(used, bytes.len() - first_length);
        }
        other => panic!("expected the login to be dropped, got {other:?}"),
    }
    assert!(connection.login_in_flight);

    let written = connection.handle_login_request(&Vec::new(), false);
    assert_eq!(written, Some(vec![0, 0, 0, 3]));
    assert!(!connection.login_in_flight);
    // There is no second result for the one login that was begun.
    assert_eq!(connection.handle_login_request(&Vec::new(), false), None);

    // The connection is free again.
    let next = connection.receive(&login_message("alice", "pw", "s"), &controller, None);
    assert!(matches!(next, Ok(Some((Reaction::BeginLogin(_), _)))));
}

#[test]
fn information_messages_precede_the_one_result() {
    let mut connection =
        GreeterConnection { connected: true, capabilities: 0, login_in_flight: true };
    let messages = vec!["failed to unlock cryptsetup:/dev/sda2".to_string(), "b".to_string()];
    let written = connection.handle_login_request(&messages, false).unwrap();
    let mut expected = information_message("failed to unlock cryptsetup:/dev/sda2");
    expected.extend_from_slice(&information_message("b"));
    expected.extend_from_slice(&[0, 0, 0, 3]);
    assert_eq!(written, expected);

    let mut connection =
        GreeterConnection { connected: true, capabilities: 0, login_in_flight: true };
    assert_eq!(connection.handle_login_request(&Vec::new(), true), Some(vec![0, 0, 0, 2]));
}

#[test]
fn no_result_is_written_without_a_login() {
    let mut connection = GreeterConnection::new();
    assert_eq!(connection.handle_login_request(&vec!["x".to_string()], true), None);
    assert_eq!(connection, GreeterConnection::new());
}

#[test]
fn information_message_is_code_and_string() {
    assert_eq!(information_message("hi"), vec![0, 0, 0, 4, 0, 0, 0, 4, 0, b'h', 0, b'i']);
    assert_eq!(information_message(""), vec![0, 0, 0, 4, 0xFF, 0xFF, 0xFF, 0xFF]);
}

#[test]
fn power_messages_are_forwarded_without_reply() {
    let controller = controller(Some([true; 5]));
    let mut connection = connected(&controller);
    for act in PowerAction::all_actions() {
        let before = connection;
        match connection.receive(&code(GreeterMessage::from(act)), &controller, None) {
            Ok(Some((Reaction::Power(got), 4))) => assert_eq!(got, act),
            other => panic!("expected a power action, got {other:?}"),
        }
        assert_eq!(connection, before);
    }
}

#[test]
fn unknown_code_ends_the_connection() {
    let controller = controller(None);
    let mut connection = connected(&controller);
    assert_eq!(
        connection.receive(&[0, 0, 0, 7], &controller, None).err(),
        Some(ProtocolError::UnknownMessage(7))
    );
    // A second `Connect` is no message of an open connection.
    assert_eq!(
        connection.receive(&code(GreeterMessage::Connect), &controller, None).err(),
        Some(ProtocolError::UnknownMessage(0))
    );
}

#[test]
fn malformed_frame_ends_only_its_own_connection() {
    let controller = controller(None);
    let mut broken = connected(&controller);
    let mut healthy = connected(&controller);

    let mut bytes = code(GreeterMessage::Login);
    bytes.extend_from_slice(&[0, 0, 0, 3, 0, b'a', 0]);
    assert_eq!(broken.receive(&bytes, &controller, None).err(), Some(ProtocolError::OddLength));
    assert!(!broken.login_in_flight);

    let next = healthy.receive(&login_message("alice", "pw", "s"), &controller, None);
    assert!(matches!(next, Ok(Some((Reaction::BeginLogin(_), _)))));
}

#[test]
fn lone_surrogate_in_a_login_is_a_protocol_error() {
    let controller = controller(None);
    let mut connection = connected(&controller);
    let mut bytes = code(GreeterMessage::Login);
    send_string(&mut bytes, "alice");
    bytes.extend_from_slice(&[0, 0, 0, 2, 0xD8, 0x3D]);
    assert_eq!(
        connection.receive(&bytes, &controller, None).err(),
        Some(ProtocolError::LoneSurrogate)
    );
}

#[test]
fn unfinished_message_asks_for_more_and_changes_nothing() {
    let controller = controller(None);
    let mut connection = GreeterConnection::new();
    assert!(matches!(connection.receive(&[0, 0], &controller, None), Ok(None)));
    assert!(!connection.connected);

    let mut connection = connected(&controller);
    let whole = login_message("alice", "hunter2", "plasma.desktop");
    for cut in [0, 3, 4, 7, 10, whole.len() - 1] {
        assert!(matches!(connection.receive(&whole[..cut], &controller, None), Ok(None)));
        assert!(!connection.login_in_flight);
    }
    // The four bytes between password and session count too.
    let mut short = code(GreeterMessage::Login);
    send_string(&mut short, "a");
    send_string(&mut short, "b");
    short.extend_from_slice(&[0, 0, 0]);
    assert!(matches!(connection.receive(&short, &controller, None), Ok(None)));
}

#[test]
fn stream_may_end_between_messages_only() {
    assert_eq!(GreeterConnection::end_of_stream(0), Ok(()));
    assert_eq!(GreeterConnection::end_of_stream(3), Ok(()));
    assert_eq!(GreeterConnection::end_of_stream(4), Err(ProtocolError::Truncated));
    assert_eq!(GreeterConnection::end_of_stream(100), Err(ProtocolError::Truncated));
}

#[test]
fn whole_login_from_connect_to_handoff() {
    let mut controller = controller(None);
    let prompt = PasswordRequest::new(
        "/run/systemd/ask-password/sck.1".to_string(),
        Some("cryptsetup:/dev/sda2".to_string()),
        None,
    );
    controller.process_request(prompt, Some("/dev/sda2".to_string()), &vec!["/dev/sda2".to_string()]);

    let mut connection = connected(&controller);
    let bytes = login_message("alice", "hunter2", "plasma.desktop");
    let frame = match connection.receive(&bytes, &controller, None) {
        Ok(Some((Reaction::BeginLogin(frame), _))) => frame,
        other => panic!("expected a login, got {other:?}"),
    };

    let attempt = controller.login(&frame.user, &frame.password, &frame.session);
    assert_eq!(attempt.replies.len(), 1);
    assert_eq!(attempt.replies[0].decision(), "1");
    assert_eq!(attempt.replies[0].socket_path(), "/run/systemd/ask-password/sck.1");
    assert_eq!(attempt.replies[0].input(), Some("hunter2\n"));
    assert!(matches!(attempt.end, LoginStep::Wait));

    controller.close();
    let attempt = controller.login(&frame.user, &frame.password, &frame.session);
    assert!(matches!(attempt.end, LoginStep::Succeeded));
    assert_eq!(connection.handle_login_request(&Vec::new(), true), Some(vec![0, 0, 0, 2]));

    let request = controller.shutdown().unwrap();
    assert_eq!(
        write_transient_sddm_config(&request, 271828).unwrap(),
        "[Autologin]\nUser=alice\nPasswordKey=271828\nSession=plasma.desktop\n"
    );
}

use ini::Ini;
use sddm_daemon::password_agent::{
    PasswordRequest, PromptFile, ReplyCommand, ReplyOutcome, RequestError, REQUESTS_DIR,
};
use sddm_daemon::secret::Secret;

const DESCRIPTOR: &str = "[Ask]\nPID=1\nSocket=/run/systemd/ask-password/sck.42\nAcceptCached=0\nEcho=0\nNotAfter=0\nMessage=Please enter passphrase for disk root\nId=cryptsetup:/dev/sda2\n";

fn file(name: &str, content: Option<&str>) -> PromptFile {
    PromptFile { name: name.to_string(), content: content.map(str::to_string) }
}

#[test]
fn descriptor_states_socket_id_and_message() {
    let request = PasswordRequest::load_from_ini(DESCRIPTOR).unwrap();
    assert_eq!(request.socket_path, "/run/systemd/ask-password/sck.42");
    assert_eq!(request.id.as_deref(), Some("cryptsetup:/dev/sda2"));
    assert_eq!(request.message.as_deref(), Some("Please enter passphrase for disk root"));
}

#[test]
fn id_and_message_are_optional() {
    let request = PasswordRequest::load_from_ini("[Ask]\nSocket=/run/sck\n").unwrap();
    assert_eq!(request.socket_path, "/run/sck");
    assert_eq!(request.id, None);
    assert_eq!(request.message, None);
}

#[test]
fn descriptor_without_socket_is_refused() {
    let r = PasswordRequest::load_from_ini("[Ask]\nId=cryptsetup:/dev/sda2\n");
    assert_eq!(r.err(), Some(RequestError::NoSocket));
}

#[test]
fn descriptor_without_ask_section_is_refused() {
    let r = PasswordRequest::load_from_ini("[Other]\nSocket=/run/sck\n");
    assert_eq!(r.err(), Some(RequestError::NoAskSection));
    assert_eq!(PasswordRequest::load_from_ini("").err(), Some(RequestError::NoAskSection));
    // A socket outside any section is not that of `[Ask]`.
    let r = PasswordRequest::load_from_ini("Socket=/run/sck\n");
    assert_eq!(r.err(), Some(RequestError::NoAskSection));
}

#[test]
fn text_that_is_no_document_is_refused() {
    let r = PasswordRequest::load_from_ini("[Ask\nSocket=/run/sck\n");
    assert_eq!(r.err(), Some(RequestError::Malformed));
}

#[test]
fn byte_order_mark_in_front_of_a_prompt_is_passed_over() {
    let request = PasswordRequest::load_from_ini("\u{feff}[Ask]\nSocket=/run/sck\n").unwrap();
    assert_eq!(request.socket_path, "/run/sck");
    let files = vec![file("ask.bom", Some("\u{feff}[Ask]\nSocket=/run/bom\n"))];
    assert_eq!(PasswordRequest::listen(&files)[0].socket_path, "/run/bom");
}

#[test]
fn first_of_repeated_keys_and_sections_counts() {
    let text = "[Ask]\nSocket=/run/first\nSocket=/run/second\n[Ask]\nSocket=/run/third\nId=late\n";
    let request = PasswordRequest::load_from_ini(text).unwrap();
    assert_eq!(request.socket_path, "/run/first");
    assert_eq!(request.id, None);
}

#[test]
fn section_and_key_names_are_case_sensitive() {
    assert_eq!(
        PasswordRequest::load_from_ini("[ask]\nSocket=/run/sck\n").err(),
        Some(RequestError::NoAskSection)
    );
    assert_eq!(
        PasswordRequest::load_from_ini("[Ask]\nsocket=/run/sck\n").err(),
        Some(RequestError::NoSocket)
    );
}

#[test]
fn parsed_document_gives_the_same_prompt_as_its_text() {
    let mut document = Ini::new();
    document
        .with_section(Some("Ask"))
        .set("Socket", "/run/sck.7")
        .set("Id", "cryptsetup:/dev/nvme0n1p2");
    let request = PasswordRequest::from_ini(&document).unwrap();
    assert_eq!(request.socket_path, "/run/sck.7");
    assert_eq!(request.id.as_deref(), Some("cryptsetup:/dev/nvme0n1p2"));
    assert_eq!(request.message, None);

    assert_eq!(PasswordRequest::from_ini(&Ini::new()).err(), Some(RequestError::NoAskSection));
    let mut empty = Ini::new();
    empty.with_section(Some("Ask")).set("Id", "x");
    assert_eq!(PasswordRequest::from_ini(&empty).err(), Some(RequestError::NoSocket));
}

#[test]
fn only_files_named_ask_are_prompts() {
    let files = vec![
        file("sck.42", Some(DESCRIPTOR)),
        file("ask.AbC123", Some(DESCRIPTOR)),
        file("tmp.ask.1", Some(DESCRIPTOR)),
        file("ask", Some(DESCRIPTOR)),
        file("Ask.1", Some(DESCRIPTOR)),
        file("ask.", Some("[Ask]\nSocket=/run/bare\n")),
    ];
    let requests = PasswordRequest::listen(&files);
    let sockets: Vec<&str> = requests.iter().map(|r| r.socket_path.as_str()).collect();
    assert_eq!(sockets, vec!["/run/systemd/ask-password/sck.42", "/run/bare"]);
}

#[test]
fn vanished_and_broken_files_are_skipped_in_order() {
    let files = vec![
        file("ask.1", Some("[Ask]\nSocket=/run/1\n")),
        file("ask.2", None),
        file("ask.3", Some("[Ask]\nId=no-socket\n")),
        file("ask.4", Some("[Ask\n")),
        file("ask.5", Some("[Ask]\nSocket=/run/5\n")),
    ];
    let requests = PasswordRequest::listen(&files);
    let sockets: Vec<&str> = requests.iter().map(|r| r.socket_path.as_str()).collect();
    assert_eq!(sockets, vec!["/run/1", "/run/5"]);
    assert!(PasswordRequest::listen(&Vec::new()).is_empty());
}

#[test]
fn prompt_files_live_in_the_ask_password_directory() {
    assert_eq!(REQUESTS_DIR, "/run/systemd/ask-password/");
    assert_eq!(PasswordRequest::path_of("ask.xyz"), "/run/systemd/ask-password/ask.xyz");
}

#[test]
fn accepting_reply_passes_the_password_as_a_line() {
    let request = PasswordRequest::new("/run/sck.1".to_string(), Some("id".to_string()), None);
    let command = request.reply(Some(Secret::new("hunter2".to_string())));
    assert_eq!(command.decision(), "1");
    assert_eq!(command.socket_path(), "/run/sck.1");
    assert_eq!(command.input(), Some("hunter2\n"));
}

#[test]
fn empty_password_is_still_an_answer() {
    let request = PasswordRequest::new("/run/sck.1".to_string(), None, None);
    let command = request.reply(Some(Secret::new(String::new())));
    assert_eq!(command.decision(), "1");
    assert_eq!(command.input(), Some("\n"));
}

#[test]
fn declining_reply_has_no_input() {
    let request = PasswordRequest::new("/run/sck.1".to_string(), None, None);
    let command = request.reply(None);
    assert_eq!(command.decision(), "0");
    assert_eq!(command.socket_path(), "/run/sck.1");
    assert_eq!(command.input(), None);
}

#[test]
fn helper_failure_counts_only_while_the_socket_exists() {
    assert_eq!(ReplyCommand::outcome(true, true), ReplyOutcome::Delivered);
    assert_eq!(ReplyCommand::outcome(true, false), ReplyOutcome::Delivered);
    assert_eq!(ReplyCommand::outcome(false, true), ReplyOutcome::Failed);
    assert_eq!(ReplyCommand::outcome(false, false), ReplyOutcome::Stale);
}

#[test]
fn secret_keeps_and_copies_its_text() {
    let secret = Secret::new("p\u{e4}ss w\u{f6}rd".to_string());
    assert_eq!(secret.as_str(), "p\u{e4}ss w\u{f6}rd");
    let twin = secret.clone();
    drop(secret);
    assert_eq!(twin.as_str(), "p\u{e4}ss w\u{f6}rd");
}

#[test]
fn secret_does_not_show_in_debug_output() {
    let secret = Secret::new("hunter2".to_string());
    let shown = format!("{secret:?}");
    assert!(!shown.contains("hunter2"));
}

use ini::Ini;
use sddm_daemon::decimal::{format_i32, parse_i32};
use sddm_daemon::login_controller::LoginRequest;
use sddm_daemon::pam_module::{
    authenticate, change_authtok, handoff_failure, next_handoff_step, rekey_input, rekey_notice,
    rekey_notices, ArgumentError, AuthFailure, Autologin, HandoffStep, CHANGE_KEY_COMMAND,
    DEFAULT_CRYPTSETUP, DESYNC_WARNING,
};
use sddm_daemon::sddm_config::write_transient_sddm_config;
use sddm_daemon::secret::Secret;

fn arguments(list: &[&str]) -> Vec<Option<String>> {
    list.iter().map(|a| Some(a.to_string())).collect()
}

#[test]
fn numbers_are_written_in_decimal() {
    assert_eq!(format_i32(0), "0");
    assert_eq!(format_i32(7), "7");
    assert_eq!(format_i32(10), "10");
    assert_eq!(format_i32(1_000_000_007), "1000000007");
    assert_eq!(format_i32(-1), "-1");
    assert_eq!(format_i32(i32::MAX), "2147483647");
    assert_eq!(format_i32(i32::MIN), "-2147483648");
}

#[test]
fn numerals_are_read_with_an_optional_sign() {
    assert_eq!(parse_i32("0"), Some(0));
    assert_eq!(parse_i32("42"), Some(42));
    assert_eq!(parse_i32("+42"), Some(42));
    assert_eq!(parse_i32("-42"), Some(-42));
    assert_eq!(parse_i32("007"), Some(7));
    assert_eq!(parse_i32("-0"), Some(0));
    assert_eq!(parse_i32("2147483647"), Some(i32::MAX));
    assert_eq!(parse_i32("-2147483648"), Some(i32::MIN));
    assert_eq!(parse_i32("00000000000000000000000000012"), Some(12));
}

#[test]
fn other_texts_are_no_numerals() {
    for text in ["", "-", "+", "--1", "+-1", "1-", "12a", "a12", " 1", "1 ", "1.0", "0x10", "\u{663}"] {
        assert_eq!(parse_i32(text), None, "{text:?}");
    }
}

#[test]
fn numbers_out_of_range_are_refused() {
    assert_eq!(parse_i32("2147483648"), None);
    assert_eq!(parse_i32("-2147483649"), None);
    assert_eq!(parse_i32("99999999999999999999999999999999999999"), None);
    assert_eq!(parse_i32("-99999999999999999999999999999999999999"), None);
}

#[test]
fn written_numbers_are_read_back() {
    for n in [0, 1, -1, 9, 10, 99, 100, 65535, -65536, i32::MAX, i32::MIN, 271828, -314159] {
        assert_eq!(parse_i32(&format_i32(n)), Some(n));
        assert_eq!(format_i32(n), n.to_string());
    }
}

#[test]
fn handoff_goes_to_the_user_it_names() {
    let text = "[Autologin]\nUser=alice\nPasswordKey=918273645\nSession=plasma.desktop\n";
    assert_eq!(authenticate(Some(text), "alice"), Ok(918273645));
}

#[test]
fn handoff_is_unknown_to_other_users() {
    let text = "[Autologin]\nUser=alice\nPasswordKey=5\nSession=plasma.desktop\n";
    assert_eq!(authenticate(Some(text), "bob"), Err(AuthFailure::UserUnknown));
    assert_eq!(authenticate(Some(text), "Alice"), Err(AuthFailure::UserUnknown));
    assert_eq!(authenticate(Some(text), ""), Err(AuthFailure::UserUnknown));
}

#[test]
fn missing_or_malformed_descriptor_means_unknown_user() {
    assert_eq!(authenticate(None, "alice"), Err(AuthFailure::UserUnknown));
    for text in [
        "",
        "[Autologin\nUser=alice\nPasswordKey=5\n",
        "[Other]\nUser=alice\nPasswordKey=5\n",
        "[Autologin]\nPasswordKey=5\n",
        "[Autologin]\nUser=alice\n",
        "[Autologin]\nUser=alice\nPasswordKey=five\n",
        "[Autologin]\nUser=alice\nPasswordKey=\n",
        "[Autologin]\nUser=alice\nPasswordKey=99999999999\n",
    ] {
        assert_eq!(authenticate(Some(text), "alice"), Err(AuthFailure::UserUnknown), "{text:?}");
    }
}

#[test]
fn written_descriptor_is_accepted_for_its_user() {
    let request = LoginRequest {
        user: "alice".to_string(),
        password: Secret::new("hunter2".to_string()),
        session: "/usr/share/wayland-sessions/plasma.desktop".to_string(),
    };
    for key in [1, 4711, i32::MAX, -3] {
        let text = write_transient_sddm_config(&request, key).unwrap();
        assert_eq!(authenticate(Some(&text), "alice"), Ok(key));
        assert_eq!(authenticate(Some(&text), "root"), Err(AuthFailure::UserUnknown));
    }
}

#[test]
fn parsed_descriptor_hands_over_user_and_key() {
    let mut document = Ini::new();
    document.with_section(Some("Autologin")).set("User", "carol").set("PasswordKey", "-12");
    let autologin = Autologin::from_ini(&document).unwrap();
    assert_eq!(autologin.user, "carol");
    assert_eq!(autologin.password_key, -12);
    assert!(Autologin::from_ini(&Ini::new()).is_none());
}

#[test]
fn descriptor_is_judged_before_the_user_is_known() {
    assert!(Autologin::load(None).is_none());
    assert!(Autologin::load(Some("[Autologin]\nUser=alice\n")).is_none());
    let autologin =
        Autologin::load(Some("[Autologin]\nUser=alice\nPasswordKey=77\n")).unwrap();
    assert_eq!(autologin.key_for("alice"), Ok(77));
    assert_eq!(autologin.key_for("bob"), Err(AuthFailure::UserUnknown));
}

#[test]
fn byte_order_mark_in_front_of_a_descriptor_is_passed_over() {
    let text = "\u{feff}[Autologin]\nUser=alice\nPasswordKey=5\n";
    assert_eq!(authenticate(Some(text), "alice"), Ok(5));
    // Only at the very beginning.
    let text = "\n\u{feff}[Autologin]\nUser=alice\nPasswordKey=5\n";
    assert_eq!(authenticate(Some(text), "alice"), Err(AuthFailure::UserUnknown));
}

#[test]
fn only_an_undeletable_descriptor_denies_the_login() {
    assert_eq!(handoff_failure(HandoffStep::RemoveDescriptor), AuthFailure::Denied);
    assert_eq!(handoff_failure(HandoffStep::ReadKey), AuthFailure::UserUnknown);
    assert_eq!(handoff_failure(HandoffStep::RevokeKey), AuthFailure::UserUnknown);
    assert_eq!(handoff_failure(HandoffStep::InstallToken), AuthFailure::UserUnknown);
}

#[test]
fn password_change_rekeys_the_named_volumes() {
    let args = arguments(&["user=alice", "luksDevice=/dev/sda2", "debug", "luksDevice=/dev/sdb1"]);
    let plan = change_authtok(&args, Some("alice"), true, false).unwrap().unwrap();
    assert_eq!(plan.cryptsetup, "cryptsetup");
    assert_eq!(plan.devices, vec!["/dev/sda2", "/dev/sdb1"]);
    assert_eq!(DEFAULT_CRYPTSETUP, "cryptsetup");
    assert_eq!(CHANGE_KEY_COMMAND, "luksChangeKey");
}

#[test]
fn last_cryptsetup_argument_counts() {
    let args = arguments(&[
        "cryptsetup=/sbin/cryptsetup",
        "luksDevice=/dev/sda2",
        "user=alice",
        "cryptsetup=/run/current-system/sw/bin/cryptsetup",
    ]);
    let plan = change_authtok(&args, Some("alice"), true, false).unwrap().unwrap();
    assert_eq!(plan.cryptsetup, "/run/current-system/sw/bin/cryptsetup");
    assert_eq!(plan.devices, vec!["/dev/sda2"]);
}

#[test]
fn other_users_passwords_are_not_followed() {
    let args = arguments(&["user=alice", "luksDevice=/dev/sda2"]);
    assert!(change_authtok(&args, Some("bob"), true, false).unwrap().is_none());
    assert!(change_authtok(&args, Some("alic"), true, false).unwrap().is_none());
    assert!(change_authtok(&arguments(&["luksDevice=/dev/sda2"]), Some("alice"), true, false)
        .unwrap()
        .is_none());
    assert!(change_authtok(&Vec::new(), Some("alice"), true, false).unwrap().is_none());
}

#[test]
fn any_of_several_user_arguments_may_name_the_user() {
    let args = arguments(&["user=bob", "user=alice", "luksDevice=/dev/sda2"]);
    assert!(change_authtok(&args, Some("alice"), true, false).unwrap().is_some());
    assert!(change_authtok(&args, Some("bob"), true, false).unwrap().is_some());
}

#[test]
fn user_without_volumes_has_an_empty_plan() {
    let plan = change_authtok(&arguments(&["user=alice"]), Some("alice"), true, false).unwrap().unwrap();
    assert!(plan.devices.is_empty());
}

#[test]
fn nothing_is_rekeyed_outside_a_real_update() {
    let args = arguments(&["user=alice", "luksDevice=/dev/sda2"]);
    assert!(change_authtok(&args, Some("alice"), false, false).unwrap().is_none());
    assert!(change_authtok(&args, Some("alice"), true, true).unwrap().is_none());
    // Not even a broken argument matters then.
    let broken = vec![None, Some("user=alice".to_string())];
    assert!(change_authtok(&broken, Some("alice"), false, false).unwrap().is_none());
}

#[test]
fn argument_that_is_no_text_is_an_error() {
    let after = vec![Some("user=alice".to_string()), None];
    assert_eq!(change_authtok(&after, Some("alice"), true, false).err(), Some(ArgumentError::NotUtf8));
    let before = vec![None, Some("user=alice".to_string())];
    assert_eq!(change_authtok(&before, Some("alice"), true, false).err(), Some(ArgumentError::NotUtf8));
    let unrelated = vec![Some("user=bob".to_string()), None];
    assert_eq!(
        change_authtok(&unrelated, Some("alice"), true, false).err(),
        Some(ArgumentError::NotUtf8)
    );
}

#[test]
fn rekey_tool_reads_old_and_new_token_as_lines() {
    assert_eq!(rekey_input(b"hunter2", b"correct horse"), b"hunter2\ncorrect horse\n".to_vec());
    assert_eq!(rekey_input(b"", b""), b"\n\n".to_vec());
}

#[test]
fn tokens_are_piped_as_the_bytes_they_are() {
    assert_eq!(rekey_input(&[0xFF, 0x00], &[0xC3]), vec![0xFF, 0x00, b'\n', 0xC3, b'\n']);
}

#[test]
fn user_without_a_name_in_text_is_named_by_no_argument() {
    let args = arguments(&["user=alice", "luksDevice=/dev/sda2"]);
    assert!(change_authtok(&args, None, true, false).unwrap().is_none());
    assert!(change_authtok(&arguments(&["user="]), None, true, false).unwrap().is_none());
    let broken = vec![Some("user=alice".to_string()), None];
    assert_eq!(change_authtok(&broken, None, true, false).err(), Some(ArgumentError::NotUtf8));
}

#[test]
fn handoff_steps_follow_in_a_fixed_order() {
    let mut order = Vec::new();
    let mut done = None;
    while let Some(step) = next_handoff_step(done) {
        order.push(step);
        done = Some(step);
    }
    assert_eq!(
        order,
        vec![
            HandoffStep::RemoveDescriptor,
            HandoffStep::ReadKey,
            HandoffStep::RevokeKey,
            HandoffStep::InstallToken
        ]
    );
}

#[test]
fn failed_rekey_is_warned_of_and_stops_nothing() {
    assert_eq!(rekey_notice(true), None);
    assert_eq!(rekey_notice(false), Some(DESYNC_WARNING));
    assert_eq!(
        rekey_notices(&vec![true, false, true, false]),
        vec![None, Some(DESYNC_WARNING), None, Some(DESYNC_WARNING)]
    );
    assert!(rekey_notices(&Vec::new()).is_empty());
}

#[test]
fn desync_is_reported_in_plain_words() {
    assert!(DESYNC_WARNING.contains("might have desynced"));
}

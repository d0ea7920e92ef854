//! The rules of the authentication module that takes a login over after
//! the change of the root file system: whether the transient configuration
//! hands the attempting user a password, and which volumes are given a new
//! key when the user's password changes.

use crate::decimal::{parse_i32, parsed_decimal};
use crate::ini_file::{
    document_sections, find_section, first_value, load_document, loaded_sections, value_of,
    KeyValues,
};
use crate::text::{allocatable, same_text, strip_prefix};
use ini::Ini;
use vstd::prelude::*;

verus! {

/// The disk-encryption tool that is run where the arguments name no other.
pub const DEFAULT_CRYPTSETUP: &'static str = "cryptsetup";

/// The tool's command that gives a volume a new key.
pub const CHANGE_KEY_COMMAND: &'static str = "luksChangeKey";

/// The warning shown when a volume could not be given the new key.
pub const DESYNC_WARNING: &'static str =
    "Failed to change LUKS password (check syslog) - the LUKS and user passwords might have desynced!";

/// What the transient configuration hands over.
#[derive(Debug)]
pub struct Autologin {
    /// The user whose login is handed over.
    pub user: String,
    /// The number of the key that holds the password.
    pub password_key: i32,
}

/// A handed-over login, by its characters.
pub struct AutologinView {
    pub user: Seq<char>,
    pub password_key: int,
}

impl DeepView for Autologin {
    type V = AutologinView;

    open spec fn deep_view(&self) -> AutologinView {
        AutologinView { user: self.user@, password_key: self.password_key as int }
    }
}

impl View for Autologin {
    type V = AutologinView;

    open spec fn view(&self) -> AutologinView {
        self.deep_view()
    }
}

/// How authentication ends where the handoff does not go through.
#[derive(Debug, Clone, Copy, PartialEq, Eq, Structural)]
pub enum AuthFailure {
    /// The module does not know the user: the login manager prompts as it
    /// would without the module.
    UserUnknown,
    /// Authentication fails.
    Denied,
}

/// A step of the handoff behind the check of the user.
#[derive(Debug, Clone, Copy, PartialEq, Eq, Structural)]
pub enum HandoffStep {
    /// Deleting the transient configuration, so that it serves once.
    RemoveDescriptor,
    /// Reading the password from the key.
    ReadKey,
    /// Revoking the key.
    RevokeKey,
    /// Installing the password as the authentication token.
    InstallToken,
}

/// What the sections of a transient configuration hand over: `User` and
/// `PasswordKey` of `[Autologin]`, the key a 32-bit numeral.
pub open spec fn autologin_of_sections(sections: Map<Seq<char>, KeyValues>) -> Option<
    AutologinView,
> {
    if !sections.contains_key("Autologin"@) {
        None
    } else {
        let section = sections["Autologin"@];
        match (value_of(section, "User"@), value_of(section, "PasswordKey"@)) {
            (Some(user), Some(key)) => match parsed_decimal(key) {
                Some(number) => Some(AutologinView { user, password_key: number }),
                None => None,
            },
            _ => None,
        }
    }
}

/// What is handed over, given the text of the transient configuration, or
/// `None` where there is no such file.
pub open spec fn autologin_of_descriptor(descriptor: Option<Seq<char>>) -> Option<AutologinView> {
    match descriptor {
        None => None,
        Some(text) => match loaded_sections(text) {
            None => None,
            Some(sections) => autologin_of_sections(sections),
        },
    }
}

/// How authentication goes on for the attempting user where this is handed
/// over: with the number of the key, if the user is the one named.
pub open spec fn key_for_user(autologin: AutologinView, attempting: Seq<char>) -> Result<
    int,
    AuthFailure,
> {
    if autologin.user == attempting {
        Ok(autologin.password_key)
    } else {
        Err(AuthFailure::UserUnknown)
    }
}

/// How authentication goes on for the attempting user, given the text of
/// the transient configuration, or `None` where there is no such file: with
/// the number of the key that holds the password, or not at all.
pub open spec fn handoff_for(descriptor: Option<Seq<char>>, attempting: Seq<char>) -> Result<
    int,
    AuthFailure,
> {
    match autologin_of_descriptor(descriptor) {
        None => Err(AuthFailure::UserUnknown),
        Some(autologin) => key_for_user(autologin, attempting),
    }
}

/// What a result of the check of the user says, with the key as a number.
pub open spec fn key_outcome(r: Result<i32, AuthFailure>) -> Result<int, AuthFailure> {
    match r {
        Ok(key) => Ok(key as int),
        Err(e) => Err(e),
    }
}

/// The order of the handoff behind the check of the user: the transient
/// configuration is deleted, the password is read from the key, the key is
/// revoked, the password is installed as the token. `done` is the step that
/// was taken last, `None` before the first; the result is the step to take
/// next, `None` after the last.
pub open spec fn step_after(done: Option<HandoffStep>) -> Option<HandoffStep> {
    match done {
        None => Some(HandoffStep::RemoveDescriptor),
        Some(HandoffStep::RemoveDescriptor) => Some(HandoffStep::ReadKey),
        Some(HandoffStep::ReadKey) => Some(HandoffStep::RevokeKey),
        Some(HandoffStep::RevokeKey) => Some(HandoffStep::InstallToken),
        Some(HandoffStep::InstallToken) => None,
    }
}

/// How authentication ends where a step of the handoff fails. Only a
/// transient configuration that cannot be deleted denies the login: it
/// could be used again.
pub open spec fn failure_of(step: HandoffStep) -> AuthFailure {
    match step {
        HandoffStep::RemoveDescriptor => AuthFailure::Denied,
        _ => AuthFailure::UserUnknown,
    }
}

/// The value of an argument of the form `key=value` with the given key and
/// equals sign.
pub open spec fn argument_value(argument: Seq<char>, key: Seq<char>) -> Option<Seq<char>> {
    if key.is_prefix_of(argument) {
        Some(argument.skip(key.len() as int))
    } else {
        None
    }
}

/// Whether an argument `user=` names the user.
pub open spec fn names_user(arguments: Seq<Seq<char>>, user: Seq<char>) -> bool {
    exists|i: int|
        0 <= i < arguments.len() && argument_value(#[trigger] arguments[i], "user="@) == Some(user)
}

/// The tool that the arguments name with `cryptsetup=`: the last such
/// argument counts, and without one the default.
pub open spec fn cryptsetup_of(arguments: Seq<Seq<char>>) -> Seq<char>
    decreases arguments.len(),
{
    if arguments.len() == 0 {
        DEFAULT_CRYPTSETUP@
    } else {
        match argument_value(arguments.last(), "cryptsetup="@) {
            Some(tool) => tool,
            None => cryptsetup_of(arguments.drop_last()),
        }
    }
}

/// The volumes that the arguments name with `luksDevice=`, in their order.
pub open spec fn devices_of(arguments: Seq<Seq<char>>) -> Seq<Seq<char>>
    decreases arguments.len(),
{
    if arguments.len() == 0 {
        Seq::empty()
    } else {
        let before = devices_of(arguments.drop_last());
        match argument_value(arguments.last(), "luksDevice="@) {
            Some(device) => before.push(device),
            None => before,
        }
    }
}

/// Why a change of the password cannot be followed.
#[derive(Debug, Clone, Copy, PartialEq, Eq, Structural)]
pub enum ArgumentError {
    /// A module argument is not valid UTF-8.
    NotUtf8,
}

/// What to do when a user's password changes.
#[derive(Debug)]
pub struct RekeyPlan {
    /// The disk-encryption tool to run.
    pub cryptsetup: String,
    /// The volumes to give the new key, in this order.
    pub devices: Vec<String>,
}

/// A plan, by its characters.
pub struct RekeyPlanView {
    pub cryptsetup: Seq<char>,
    pub devices: Seq<Seq<char>>,
}

impl DeepView for RekeyPlan {
    type V = RekeyPlanView;

    open spec fn deep_view(&self) -> RekeyPlanView {
        RekeyPlanView { cryptsetup: self.cryptsetup@, devices: self.devices.deep_view() }
    }
}

impl View for RekeyPlan {
    type V = RekeyPlanView;

    open spec fn view(&self) -> RekeyPlanView {
        self.deep_view()
    }
}

/// The texts of arguments that are all valid UTF-8.
pub open spec fn argument_texts(arguments: Seq<Option<Seq<char>>>) -> Seq<Seq<char>> {
    Seq::new(arguments.len(), |i: int| arguments[i]->0)
}

/// What a change of the password asks for. Nothing, unless the token is
/// being updated and not merely because it expired. Then every argument
/// must be valid UTF-8. Nothing again, unless an argument names the user;
/// a user whose name is not valid UTF-8, here `None`, is named by none.
/// Else the volumes that the arguments name are given the new key.
pub open spec fn rekey_plan(
    arguments: Seq<Option<Seq<char>>>,
    user: Option<Seq<char>>,
    updating: bool,
    expired_only: bool,
) -> Result<Option<RekeyPlanView>, ArgumentError> {
    if !updating || expired_only {
        Ok(None)
    } else if exists|i: int| 0 <= i < arguments.len() && (#[trigger] arguments[i]) is None {
        Err(ArgumentError::NotUtf8)
    } else {
        let texts = argument_texts(arguments);
        if user is Some && names_user(texts, user->0) {
            Ok(
                Some(
                    RekeyPlanView { cryptsetup: cryptsetup_of(texts), devices: devices_of(texts) },
                ),
            )
        } else {
            Ok(None)
        }
    }
}

/// What a result of planning says, by its characters.
pub open spec fn plan_outcome(r: Result<Option<RekeyPlan>, ArgumentError>) -> Result<
    Option<RekeyPlanView>,
    ArgumentError,
> {
    match r {
        Ok(Some(plan)) => Ok(Some(plan@)),
        Ok(None) => Ok(None),
        Err(e) => Err(e),
    }
}

/// What the tool reads from its standard input to change a key: the old
/// token and the new one, each followed by a line feed.
pub open spec fn rekey_input_bytes(old_token: Seq<u8>, new_token: Seq<u8>) -> Seq<u8> {
    old_token.push(10u8) + new_token.push(10u8)
}

/// What happened to the volumes of a plan, one after the other: whether the
/// tool changed the key of each.
pub open spec fn notices_of(outcomes: Seq<bool>) -> Seq<Option<Seq<char>>> {
    Seq::new(
        outcomes.len(),
        |i: int|
            if outcomes[i] {
                None
            } else {
                Some(DESYNC_WARNING@)
            },
    )
}

impl Autologin {
    /// What a parsed transient configuration hands over.
    pub fn from_ini(document: &Ini) -> (r: Option<Autologin>)
        ensures
            r.deep_view() == autologin_of_sections(document_sections(*document)),
    {
        let section = match find_section(document, "Autologin") {
            Some(section) => section,
            None => {
                return None;
            },
        };
        let user = first_value(section, "User");
        let key = first_value(section, "PasswordKey");
        match (user, key) {
            (Some(user), Some(key)) => match parse_i32(key) {
                Some(password_key) => Some(Autologin { user: String::from_str(user), password_key }),
                None => None,
            },
            _ => None,
        }
    }

    /// What is handed over, given the text of the transient configuration,
    /// or `None` where there is no such file.
    pub fn load(descriptor: Option<&str>) -> (r: Option<Autologin>)
        ensures
            r.deep_view() == autologin_of_descriptor(descriptor.deep_view()),
    {
        match descriptor {
            None => None,
            Some(text) => match load_document(text) {
                None => None,
                Some(document) => Self::from_ini(&document),
            },
        }
    }

    /// How authentication goes on for the attempting user: the number of
    /// the key is handed out only to the user who is named.
    pub fn key_for(&self, attempting_user: &str) -> (r: Result<i32, AuthFailure>)
        ensures
            key_outcome(r) == key_for_user(self@, attempting_user@),
    {
        if same_text(self.user.as_str(), attempting_user) {
            Ok(self.password_key)
        } else {
            Err(AuthFailure::UserUnknown)
        }
    }
}

/// Decides how authentication goes on for the attempting user. `descriptor`
/// is the text of the transient configuration, `None` where there is no
/// such file. The number of the key is handed out only to the user whom the
/// configuration names.
pub fn authenticate(descriptor: Option<&str>, attempting_user: &str) -> (r: Result<
    i32,
    AuthFailure,
>)
    ensures
        key_outcome(r) == handoff_for(descriptor.deep_view(), attempting_user@),
{
    match Autologin::load(descriptor) {
        None => Err(AuthFailure::UserUnknown),
        Some(autologin) => autologin.key_for(attempting_user),
    }
}

/// How authentication ends where a step of the handoff fails.
pub fn handoff_failure(step: HandoffStep) -> (r: AuthFailure)
    ensures
        r == failure_of(step),
{
    match step {
        HandoffStep::RemoveDescriptor => AuthFailure::Denied,
        _ => AuthFailure::UserUnknown,
    }
}

/// The step of the handoff to take after `done`, `None` after the last.
pub fn next_handoff_step(done: Option<HandoffStep>) -> (next: Option<HandoffStep>)
    ensures
        next == step_after(done),
{
    match done {
        None => Some(HandoffStep::RemoveDescriptor),
        Some(HandoffStep::RemoveDescriptor) => Some(HandoffStep::ReadKey),
        Some(HandoffStep::ReadKey) => Some(HandoffStep::RevokeKey),
        Some(HandoffStep::RevokeKey) => Some(HandoffStep::InstallToken),
        Some(HandoffStep::InstallToken) => None,
    }
}

/// What the user is told after the tool was run on a volume: nothing where
/// it changed the key, the warning where it failed or could not be started.
/// Either way the next volume is tried and the password change goes on.
pub fn rekey_notice(succeeded: bool) -> (notice: Option<&'static str>)
    ensures
        notice.deep_view() == (if succeeded {
            None::<Seq<char>>
        } else {
            Some(DESYNC_WARNING@)
        }),
{
    if succeeded {
        None
    } else {
        Some(DESYNC_WARNING)
    }
}

/// What the user is told after the tool was run on every volume of a plan:
/// one notice for each volume, in the order of the volumes. A failure stops
/// nothing: every volume has its outcome, and so its notice.
pub fn rekey_notices(outcomes: &Vec<bool>) -> (notices: Vec<Option<&'static str>>)
    ensures
        notices.deep_view() == notices_of(outcomes@),
{
    let mut notices: Vec<Option<&'static str>> = Vec::new();
    let mut i: usize = 0;
    while i < outcomes.len()
        invariant
            i <= outcomes.len(),
            notices@.len() == i,
            forall|j: int| 0 <= j < i ==> (#[trigger] notices@[j]).deep_view() == notices_of(
                outcomes@,
            )[j],
        decreases outcomes.len() - i,
    {
        notices.push(rekey_notice(outcomes[i]));
        i = i + 1;
    }
    proof {
        assert(notices.deep_view() =~= notices_of(outcomes@));
    }
    notices
}

/// The value of an argument `key=value`; `key` includes the equals sign.
fn value_of_argument<'a>(argument: &'a str, key: &str) -> (r: Option<&'a str>)
    ensures
        r.deep_view() == argument_value(argument@, key@),
{
    let rest = strip_prefix(argument, key);
    proof {
        if let Some(value) = rest {
            assert(value@ =~= argument@.skip(key@.len() as int));
        }
    }
    rest
}

/// Decides what a change of the user's password asks for. `arguments` are
/// the module's arguments and `user` is the user's name, each `None` where
/// it is not valid UTF-8.
pub fn change_authtok(
    arguments: &Vec<Option<String>>,
    user: Option<&str>,
    updating: bool,
    expired_only: bool,
) -> (r: Result<Option<RekeyPlan>, ArgumentError>)
    ensures
        plan_outcome(r) == rekey_plan(
            arguments.deep_view(),
            user.deep_view(),
            updating,
            expired_only,
        ),
{
    if !updating || expired_only {
        return Ok(None);
    }
    // A user without a name in UTF-8 is named by no argument; the arguments
    // are looked at all the same.
    let (known, wanted): (bool, &str) = match user {
        Some(name) => (true, name),
        None => (false, ""),
    };
    let ghost given = arguments.deep_view();
    let ghost texts = argument_texts(given);
    let mut user_named = false;
    let mut cryptsetup = String::from_str(DEFAULT_CRYPTSETUP);
    let mut devices: Vec<String> = Vec::new();
    let mut i: usize = 0;
    proof {
        assert(texts.take(0) =~= Seq::<Seq<char>>::empty());
        assert(devices.deep_view() =~= Seq::<Seq<char>>::empty());
    }
    while i < arguments.len()
        invariant
            i <= arguments.len(),
            updating && !expired_only,
            given == arguments.deep_view(),
            texts == argument_texts(given),
            forall|j: int| 0 <= j < i ==> (#[trigger] given[j]) is Some,
            user_named == names_user(texts.take(i as int), wanted@),
            cryptsetup@ == cryptsetup_of(texts.take(i as int)),
            devices.deep_view() == devices_of(texts.take(i as int)),
        decreases arguments.len() - i,
    {
        let argument = match &arguments[i] {
            Some(text) => text.as_str(),
            None => {
                proof {
                    assert(given[i as int] is None);
                }
                return Err(ArgumentError::NotUtf8);
            },
        };
        let ghost before = texts.take(i as int);
        let ghost upto = texts.take(i + 1);
        proof {
            assert(given[i as int] == Some(argument@));
            assert(upto.drop_last() =~= before);
            assert(upto.last() == argument@);
        }
        match value_of_argument(argument, "user=") {
            Some(name) => {
                if same_text(name, wanted) {
                    user_named = true;
                }
            },
            None => {},
        }
        proof {
            if names_user(before, wanted@) {
                let w = choose|w: int|
                    0 <= w < before.len() && argument_value(#[trigger] before[w], "user="@)
                        == Some(wanted@);
                assert(upto[w] == before[w]);
            }
            if names_user(upto, wanted@) && !names_user(before, wanted@) {
                let w = choose|w: int|
                    0 <= w < upto.len() && argument_value(#[trigger] upto[w], "user="@) == Some(
                        wanted@,
                    );
                if w < i {
                    assert(before[w] == upto[w]);
                }
            }
            if argument_value(argument@, "user="@) == Some(wanted@) {
                assert(argument_value(upto[i as int], "user="@) == Some(wanted@));
            }
        }
        match value_of_argument(argument, "cryptsetup=") {
            Some(tool) => {
                cryptsetup = String::from_str(tool);
            },
            None => {},
        }
        match value_of_argument(argument, "luksDevice=") {
            Some(device) => {
                let ghost listed = devices.deep_view();
                devices.push(String::from_str(device));
                proof {
                    assert(devices.deep_view() =~= listed.push(device@));
                }
            },
            None => {},
        }
        i = i + 1;
    }
    proof {
        assert(texts.take(arguments.len() as int) =~= texts);
        if exists|j: int| 0 <= j < given.len() && (#[trigger] given[j]) is None {
            let j = choose|j: int| 0 <= j < given.len() && (#[trigger] given[j]) is None;
            assert(given[j] is Some);
        }
    }
    if known && user_named {
        Ok(Some(RekeyPlan { cryptsetup, devices }))
    } else {
        Ok(None)
    }
}

/// What the tool reads from its standard input to change a key. The
/// tokens are taken as the bytes they are, whatever they spell.
pub fn rekey_input(old_token: &[u8], new_token: &[u8]) -> (input: Vec<u8>)
    ensures
        input@ == rekey_input_bytes(old_token@, new_token@),
{
    proof {
        assert(old_token@.len() == old_token.len());
        assert(new_token@.len() == new_token.len());
    }
    let a = old_token.len();
    let b = new_token.len();
    // The input is given its final size at once, so that it never moves
    // while it grows and no copy of it is left behind.
    let capacity: usize = if a < usize::MAX / 2 && b < usize::MAX / 2 - 1 {
        a + b + 2
    } else {
        a
    };
    let mut input: Vec<u8> = Vec::with_capacity(allocatable(capacity));
    let mut i: usize = 0;
    while i < a
        invariant
            i <= a,
            a == old_token@.len(),
            input@ == old_token@.take(i as int),
        decreases a - i,
    {
        input.push(old_token[i]);
        proof {
            assert(input@ =~= old_token@.take(i + 1));
        }
        i = i + 1;
    }
    input.push(10u8);
    let mut j: usize = 0;
    proof {
        assert(old_token@.take(a as int) =~= old_token@);
        assert(input@ =~= old_token@.push(10u8) + new_token@.take(0));
    }
    while j < b
        invariant
            j <= b,
            b == new_token@.len(),
            input@ == old_token@.push(10u8) + new_token@.take(j as int),
        decreases b - j,
    {
        input.push(new_token[j]);
        proof {
            assert(input@ =~= old_token@.push(10u8) + new_token@.take(j + 1));
        }
        j = j + 1;
    }
    input.push(10u8);
    proof {
        assert(new_token@.take(b as int) =~= new_token@);
        assert(input@ =~= rekey_input_bytes(old_token@, new_token@));
    }
    input
}

} // verus!

//! The five power operations the greeter may ask for, and which of them the
//! init system is able to carry out.

use crate::text::starts_with;
use vstd::prelude::*;

verus! {

/// The init system's private control socket, tried before the system bus.
pub const PRIVATE_SOCKET: &'static str = "/run/systemd/private";

/// The bus name of the init system's manager.
pub const MANAGER_DESTINATION: &'static str = "org.freedesktop.systemd1";

/// The object path of the init system's manager.
pub const MANAGER_PATH: &'static str = "/org/freedesktop/systemd1";

/// The interface of the init system's manager.
pub const MANAGER_INTERFACE: &'static str = "org.freedesktop.systemd1.Manager";

/// The manager's method that resolves a unit by name.
pub const LOAD_UNIT: &'static str = "LoadUnit";

/// The manager's method that starts a unit.
pub const START_UNIT: &'static str = "StartUnit";

/// The job mode with which a power action's unit is started.
pub const START_MODE: &'static str = "replace-irreversibly";

/// A power operation offered to the greeter.
#[derive(Debug, Clone, Copy, PartialEq, Eq, Structural)]
pub enum PowerAction {
    PowerOff,
    Reboot,
    Suspend,
    Hibernate,
    HybridSleep,
}

impl PowerAction {
    /// Position of the action in the fixed order PowerOff, Reboot, Suspend,
    /// Hibernate, HybridSleep.
    pub open spec fn index(self) -> int {
        match self {
            PowerAction::PowerOff => 0,
            PowerAction::Reboot => 1,
            PowerAction::Suspend => 2,
            PowerAction::Hibernate => 3,
            PowerAction::HybridSleep => 4,
        }
    }

    /// Name of the init-system unit that carries the action out.
    pub open spec fn target_name(self) -> Seq<char> {
        match self {
            PowerAction::PowerOff => "poweroff.target"@,
            PowerAction::Reboot => "reboot.target"@,
            PowerAction::Suspend => "suspend.target"@,
            PowerAction::Hibernate => "hibernate.target"@,
            PowerAction::HybridSleep => "hybrid-sleep.target"@,
        }
    }

    /// The unit target that starting the action means.
    pub fn systemd_target(self) -> (target: &'static str)
        ensures
            target@ == self.target_name(),
    {
        match self {
            PowerAction::PowerOff => "poweroff.target",
            PowerAction::Reboot => "reboot.target",
            PowerAction::Suspend => "suspend.target",
            PowerAction::Hibernate => "hibernate.target",
            PowerAction::HybridSleep => "hybrid-sleep.target",
        }
    }

    /// The action at a position of the fixed order, for positions below five.
    pub open spec fn at(i: int) -> PowerAction {
        if i == 0 {
            PowerAction::PowerOff
        } else if i == 1 {
            PowerAction::Reboot
        } else if i == 2 {
            PowerAction::Suspend
        } else if i == 3 {
            PowerAction::Hibernate
        } else {
            PowerAction::HybridSleep
        }
    }

    /// All actions in their fixed order.
    pub fn all_actions() -> (all: [PowerAction; 5])
        ensures
            forall|i: int| 0 <= i < 5 ==> all[i] == PowerAction::at(i) && (#[trigger] all[i]).index()
                == i,
    {
        [
            PowerAction::PowerOff,
            PowerAction::Reboot,
            PowerAction::Suspend,
            PowerAction::Hibernate,
            PowerAction::HybridSleep,
        ]
    }

    /// The position of the action in the fixed order.
    pub fn position(self) -> (i: usize)
        ensures
            i == self.index(),
            i < 5,
    {
        match self {
            PowerAction::PowerOff => 0,
            PowerAction::Reboot => 1,
            PowerAction::Suspend => 2,
            PowerAction::Hibernate => 3,
            PowerAction::HybridSleep => 4,
        }
    }
}

/// A request to the init system's manager to start a unit.
#[derive(Debug, Clone, Copy, PartialEq, Eq)]
pub struct StartUnit {
    /// The unit to start.
    pub unit: &'static str,
    /// The job mode.
    pub mode: &'static str,
}

/// Which power actions the init system can carry out, as found when the
/// connection to it was made.
#[derive(Debug, Clone, Copy)]
pub struct PowerActionClient {
    capable_acts: [bool; 5],
}

impl PowerActionClient {
    /// Whether the action was found available.
    pub closed spec fn capable(&self, act: PowerAction) -> bool {
        self.capable_acts[act.index()]
    }

    /// Judges the probe of one action: it is available exactly where the
    /// init system resolved its unit. Nothing else is asked of the unit.
    pub fn check_action(resolved: bool) -> (available: bool)
        ensures
            available == resolved,
    {
        resolved
    }

    /// The client for a connection on which the init system resolved the
    /// units of the actions as `resolved` says, in the fixed order of the
    /// actions. Each action is judged by itself: one that did not resolve
    /// takes nothing from the others.
    pub fn connect(resolved: [bool; 5]) -> (client: PowerActionClient)
        ensures
            forall|act: PowerAction| #[trigger] client.capable(act) == resolved[act.index()],
    {
        let mut capable_acts = [false; 5];
        let mut i: usize = 0;
        while i < 5
            invariant
                i <= 5,
                forall|j: int| 0 <= j < i ==> capable_acts[j] == resolved[j],
            decreases 5 - i,
        {
            capable_acts[i] = Self::check_action(resolved[i]);
            i = i + 1;
        }
        PowerActionClient { capable_acts }
    }

    /// Whether the action can be carried out.
    pub fn can_perform_action(&self, act: PowerAction) -> (able: bool)
        ensures
            able == self.capable(act),
    {
        self.capable_acts[act.position()]
    }

    /// The request that carries the action out: its unit is started and
    /// cannot be overridden by a later job.
    pub fn perform_action(&self, act: PowerAction) -> (request: StartUnit)
        ensures
            request.unit@ == act.target_name(),
            request.mode@ == START_MODE@,
    {
        StartUnit { unit: act.systemd_target(), mode: START_MODE }
    }
}

/// What is sent on the private socket before the first message: the
/// shortest handshake the init system accepts, as user zero.
pub fn auth_handshake() -> (bytes: Vec<u8>)
    ensures
        bytes@ == seq![0u8] + "AUTH EXTERNAL 30\r\nBEGIN\r\n"@.map_values(|c: char| c as u8),
{
    let text = "AUTH EXTERNAL 30\r\nBEGIN\r\n";
    proof {
        reveal_strlit("AUTH EXTERNAL 30\r\nBEGIN\r\n");
    }
    let mut bytes: Vec<u8> = Vec::new();
    bytes.push(0u8);
    let n = text.unicode_len();
    let mut i: usize = 0;
    while i < n
        invariant
            i <= n,
            n == text@.len(),
            text.is_ascii(),
            bytes@ == seq![0u8] + text@.take(i as int).map_values(|c: char| c as u8),
        decreases n - i,
    {
        let b = text.get_ascii(i);
        bytes.push(b);
        proof {
            assert(text@.take(i + 1) =~= text@.take(i as int).push(text@[i as int]));
            assert(bytes@ =~= seq![0u8] + text@.take(i + 1).map_values(|c: char| c as u8));
        }
        i = i + 1;
    }
    proof {
        assert(text@.take(n as int) =~= text@);
    }
    bytes
}

/// Whether the init system's first line accepts the handshake.
pub fn auth_accepted(reply: &str) -> (accepted: bool)
    ensures
        accepted == "OK"@.is_prefix_of(reply@),
{
    starts_with(reply, "OK")
}

} // verus!

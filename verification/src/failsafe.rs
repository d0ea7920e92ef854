//! The keyboard fail-safe: which input devices count as keyboards, when the
//! abort gesture is held, and how long the watchdog waits. The caller reads
//! the devices; the rules are here.

use std::collections::HashSet;
use vstd::prelude::*;

verus! {

broadcast use vstd::std_specs::hash::group_hash_axioms;

/// How often the directory of the input devices is looked for before the
/// start gives up.
pub const INPUT_POLL_LIMIT: u32 = 25;

/// Milliseconds between two looks for the directory of the input devices.
pub const INPUT_POLL_MILLIS: u64 = 200;

/// Milliseconds between two polls of the keyboards.
pub const KEYBOARD_POLL_MILLIS: u64 = 100;

/// Seconds that the process has to end by itself once the gesture was
/// seen, before it is aborted.
pub const ABORT_GRACE_SECS: u64 = 3;

/// What an input device advertises.
#[derive(Debug, Clone, Copy, PartialEq, Eq, Structural)]
pub struct DeviceInfo {
    /// The device sends key events.
    pub key_events: bool,
    /// The device sends key-repeat events.
    pub repeat_events: bool,
    /// The device has an Escape key.
    pub escape_key: bool,
    /// The device has a left or right Shift or Control key.
    pub modifier_key: bool,
}

/// The identity that an input device reports.
#[derive(Debug, Clone, Copy, PartialEq, Eq, Structural)]
pub struct InputId {
    pub bus_type: u16,
    pub vendor: u16,
    pub product: u16,
    pub version: u16,
}

/// A keyboard at the moment it was polled.
#[derive(Debug, Clone, Copy, PartialEq, Eq, Structural)]
pub struct Keyboard {
    /// The device's identity.
    pub id: InputId,
    /// Escape is held down.
    pub escape_held: bool,
    /// A left or right Shift or Control key is held down.
    pub modifier_held: bool,
}

/// Why the fail-safe cannot start.
#[derive(Debug, Clone, Copy, PartialEq, Eq, Structural)]
pub enum FailsafeError {
    /// A keyboard has Escape held down: the killswitch is engaged.
    KillswitchActive,
    /// There is no keyboard to watch.
    NoKeyboards,
}

/// Whether a device counts as a keyboard: it sends key and repeat events
/// and has Escape and at least one Shift or Control key.
pub open spec fn counts_as_keyboard(info: DeviceInfo) -> bool {
    info.key_events && info.repeat_events && info.escape_key && info.modifier_key
}

impl InputId {
    /// The identity as one number: the four fields side by side.
    pub open spec fn spec_key(self) -> u64 {
        (self.bus_type * 0x1_0000_0000_0000 + self.vendor * 0x1_0000_0000 + self.product * 0x1_0000
            + self.version) as u64
    }

    /// The identity as one number: the four fields side by side.
    #[verifier::when_used_as_spec(spec_key)]
    pub fn key(self) -> (key: u64)
        ensures
            key == self.spec_key(),
    {
        let bus: u64 = self.bus_type as u64;
        let vendor: u64 = self.vendor as u64;
        let product: u64 = self.product as u64;
        let version: u64 = self.version as u64;
        bus * 0x1_0000_0000_0000 + vendor * 0x1_0000_0000 + product * 0x1_0000 + version
    }

    /// Two identities with the same number are the same identity.
    pub proof fn lemma_key_injective(a: InputId, b: InputId)
        requires
            a.spec_key() == b.spec_key(),
        ensures
            a == b,
    {
        let a0 = a.bus_type as u64;
        let a1 = a.vendor as u64;
        let a2 = a.product as u64;
        let a3 = a.version as u64;
        let b0 = b.bus_type as u64;
        let b1 = b.vendor as u64;
        let b2 = b.product as u64;
        let b3 = b.version as u64;
        assert(a0 == b0 && a1 == b1 && a2 == b2 && a3 == b3) by (bit_vector)
            requires
                a0 < 0x1_0000 && a1 < 0x1_0000 && a2 < 0x1_0000 && a3 < 0x1_0000,
                b0 < 0x1_0000 && b1 < 0x1_0000 && b2 < 0x1_0000 && b3 < 0x1_0000,
                a0 * 0x1_0000_0000_0000 + a1 * 0x1_0000_0000 + a2 * 0x1_0000 + a3 == b0
                    * 0x1_0000_0000_0000 + b1 * 0x1_0000_0000 + b2 * 0x1_0000 + b3,
        ;
    }
}

/// Whether the keyboard at position `i` has the identity `key`.
pub open spec fn has_key_at(keyboards: Seq<Keyboard>, key: u64, i: int) -> bool {
    0 <= i < keyboards.len() && keyboards[i].id.spec_key() == key
}

/// The identities of keyboards, as numbers.
pub open spec fn keys_of(keyboards: Seq<Keyboard>) -> Set<u64> {
    Set::new(|key: u64| exists|i: int| has_key_at(keyboards, key, i))
}

/// The identities of a run of keyboards with one more at the end.
pub proof fn lemma_keys_of_push(keyboards: Seq<Keyboard>, last: Keyboard)
    ensures
        keys_of(keyboards.push(last)) == keys_of(keyboards).insert(last.id.spec_key()),
{
    let longer = keyboards.push(last);
    let key = last.id.spec_key();
    assert(has_key_at(longer, key, keyboards.len() as int));
    assert forall|k: u64| keys_of(keyboards).contains(k) implies keys_of(longer).contains(k) by {
        let j = choose|j: int| has_key_at(keyboards, k, j);
        assert(has_key_at(longer, k, j));
    }
    assert forall|k: u64| keys_of(longer).contains(k) implies keys_of(keyboards).contains(k) || k
        == key by {
        let j = choose|j: int| has_key_at(longer, k, j);
        if j < keyboards.len() {
            assert(has_key_at(keyboards, k, j));
        }
    }
    assert(keys_of(longer) =~= keys_of(keyboards).insert(key));
}

/// The identities of a run of keyboards with one more at the front.
pub proof fn lemma_keys_of_front(first: Keyboard, keyboards: Seq<Keyboard>)
    ensures
        keys_of(seq![first] + keyboards) == keys_of(keyboards).insert(first.id.spec_key()),
{
    let longer = seq![first] + keyboards;
    let key = first.id.spec_key();
    assert(has_key_at(longer, key, 0));
    assert forall|k: u64| keys_of(keyboards).contains(k) implies keys_of(longer).contains(k) by {
        let j = choose|j: int| has_key_at(keyboards, k, j);
        assert(has_key_at(longer, k, j + 1));
    }
    assert forall|k: u64| keys_of(longer).contains(k) implies keys_of(keyboards).contains(k) || k
        == key by {
        let j = choose|j: int| has_key_at(longer, k, j);
        if j > 0 {
            assert(has_key_at(keyboards, k, j - 1));
        }
    }
    assert(keys_of(longer) =~= keys_of(keyboards).insert(key));
}

/// Whether the keyboard at position `i` triggers the fail-safe in a poll
/// that began with the devices `seen`: one counts as seen before if it was
/// seen in an earlier poll or stands earlier in this one.
pub open spec fn triggers_at(seen: Set<u64>, keyboards: Seq<Keyboard>, i: int) -> bool {
    0 <= i < keyboards.len() && triggers(
        seen.union(keys_of(keyboards.take(i))).contains(keyboards[i].id.spec_key()),
        keyboards[i],
    )
}

/// Whether the fail-safe may start with these keyboards, and why not.
pub open spec fn startup_check(keyboards: Seq<Keyboard>) -> Result<(), FailsafeError> {
    if exists|i: int| 0 <= i < keyboards.len() && (#[trigger] keyboards[i]).escape_held {
        Err(FailsafeError::KillswitchActive)
    } else if keyboards.len() == 0 {
        Err(FailsafeError::NoKeyboards)
    } else {
        Ok(())
    }
}

/// Whether a keyboard triggers the fail-safe: on a device seen before,
/// Escape together with a modifier; on a device seen for the first time,
/// Escape alone.
pub open spec fn triggers(known: bool, keyboard: Keyboard) -> bool {
    keyboard.escape_held && (!known || keyboard.modifier_held)
}

/// One poll of the keyboards in their order: the devices seen after it and
/// whether the fail-safe is engaged. The poll ends at the first keyboard
/// that triggers.
pub open spec fn poll_model(seen: Set<u64>, keyboards: Seq<Keyboard>) -> (Set<u64>, bool)
    decreases keyboards.len(),
{
    if keyboards.len() == 0 {
        (seen, false)
    } else {
        let first = keyboards[0];
        let key = first.id.spec_key();
        if triggers(seen.contains(key), first) {
            (seen.insert(key), true)
        } else {
            poll_model(seen.insert(key), keyboards.drop_first())
        }
    }
}

/// A poll engages the fail-safe exactly if some keyboard triggers it, and
/// then Escape is held on some keyboard.
pub proof fn lemma_poll_engages(seen: Set<u64>, keyboards: Seq<Keyboard>)
    ensures
        poll_model(seen, keyboards).1 <==> exists|i: int| triggers_at(seen, keyboards, i),
        poll_model(seen, keyboards).1 ==> exists|i: int|
            0 <= i < keyboards.len() && (#[trigger] keyboards[i]).escape_held,
    decreases keyboards.len(),
{
    if keyboards.len() > 0 {
        let first = keyboards[0];
        let key = first.id.spec_key();
        let rest = keyboards.drop_first();
        let seen_more = seen.insert(key);
        assert(keys_of(keyboards.take(0)) =~= Set::<u64>::empty());
        assert(seen.union(keys_of(keyboards.take(0))) =~= seen);
        if triggers(seen.contains(key), first) {
            assert(triggers_at(seen, keyboards, 0));
        } else {
            lemma_poll_engages(seen_more, rest);
            assert forall|i: int| 0 < i < keyboards.len() implies (triggers_at(seen, keyboards, i)
                <==> #[trigger] triggers_at(seen_more, rest, i - 1)) by {
                let shorter = rest.take(i - 1);
                assert(keyboards.take(i) =~= seq![first] + shorter);
                lemma_keys_of_front(first, shorter);
                assert(seen.union(keys_of(keyboards.take(i))) =~= seen_more.union(
                    keys_of(shorter),
                ));
                assert(rest[i - 1] == keyboards[i]);
            }
            if poll_model(seen, keyboards).1 {
                let j = choose|j: int| triggers_at(seen_more, rest, j);
                let i = j + 1;
                assert(triggers_at(seen_more, rest, i - 1));
                assert(triggers_at(seen, keyboards, i));
                let w = choose|w: int| 0 <= w < rest.len() && (#[trigger] rest[w]).escape_held;
                assert(keyboards[w + 1].escape_held);
            }
            if exists|i: int| triggers_at(seen, keyboards, i) {
                let i = choose|i: int| triggers_at(seen, keyboards, i);
                assert(i > 0);
                assert(triggers_at(seen_more, rest, i - 1));
            }
        }
    }
}

/// Whether a device counts as a keyboard.
pub fn is_keyboard(info: &DeviceInfo) -> (r: bool)
    ensures
        r == counts_as_keyboard(*info),
{
    info.key_events && info.repeat_events && info.escape_key && info.modifier_key
}

/// Whether to look for the directory of the input devices once more, after
/// `failed_polls` looks that did not find it.
pub fn keep_waiting_for_input(failed_polls: u32) -> (r: bool)
    ensures
        r == (failed_polls <= INPUT_POLL_LIMIT),
{
    failed_polls <= INPUT_POLL_LIMIT
}

/// The watchdog's memory: the keyboards it has seen.
#[derive(Debug)]
pub struct Failsafe {
    dev_ids: HashSet<u64>,
}

impl View for Failsafe {
    type V = Set<u64>;

    closed spec fn view(&self) -> Set<u64> {
        self.dev_ids@
    }
}

/// Starts the fail-safe with the keyboards that are there. It refuses to
/// start while Escape is held on any of them, and without a keyboard.
pub fn start_failsafe(keyboards: &Vec<Keyboard>) -> (r: Result<Failsafe, FailsafeError>)
    ensures
        match r {
            Ok(watchdog) => startup_check(keyboards@) == Ok::<(), FailsafeError>(()) && watchdog@
                == keys_of(keyboards@),
            Err(e) => startup_check(keyboards@) == Err::<(), FailsafeError>(e),
        },
{
    let mut dev_ids: HashSet<u64> = HashSet::new();
    let mut i: usize = 0;
    proof {
        assert(keys_of(keyboards@.take(0)) =~= Set::<u64>::empty());
    }
    while i < keyboards.len()
        invariant
            i <= keyboards.len(),
            dev_ids@ == keys_of(keyboards@.take(i as int)),
            forall|j: int| 0 <= j < i ==> !(#[trigger] keyboards@[j]).escape_held,
        decreases keyboards.len() - i,
    {
        let keyboard = keyboards[i];
        if keyboard.escape_held {
            return Err(FailsafeError::KillswitchActive);
        }
        dev_ids.insert(keyboard.id.key());
        proof {
            assert(keyboards@.take(i + 1) =~= keyboards@.take(i as int).push(keyboard));
            lemma_keys_of_push(keyboards@.take(i as int), keyboard);
        }
        i = i + 1;
    }
    proof {
        assert(keyboards@.take(keyboards.len() as int) =~= keyboards@);
    }
    if keyboards.len() == 0 {
        return Err(FailsafeError::NoKeyboards);
    }
    Ok(Failsafe { dev_ids })
}

impl Failsafe {
    /// One poll: looks at the keyboards in their order, remembers the new
    /// ones, and says whether the fail-safe is engaged.
    pub fn poll(&mut self, keyboards: &Vec<Keyboard>) -> (engaged: bool)
        ensures
            (final(self)@, engaged) == poll_model(old(self)@, keyboards@),
    {
        let mut i: usize = 0;
        proof {
            assert(keyboards@.skip(0) =~= keyboards@);
        }
        while i < keyboards.len()
            invariant
                i <= keyboards.len(),
                poll_model(old(self)@, keyboards@) == poll_model(self@, keyboards@.skip(i as int)),
            decreases keyboards.len() - i,
        {
            let keyboard = keyboards[i];
            proof {
                assert(keyboards@.skip(i as int)[0] == keyboard);
                assert(keyboards@.skip(i as int).drop_first() =~= keyboards@.skip(i + 1));
            }
            let new = self.dev_ids.insert(keyboard.id.key());
            if keyboard.escape_held && (new || keyboard.modifier_held) {
                return true;
            }
            i = i + 1;
        }
        false
    }
}

} // verus!
